//! Where kimi-code says which sessions there are, and which of them run.
use crate::cache::LogFile;
use crate::content::or_empty;
use crate::json::json_text;
use crate::json::parse_json;
use crate::json::Json;
use crate::json::JsonTree;
use crate::model::opt_string;
use crate::policy::HostPolicy;
use crate::process::ancestor_pids;
use crate::process::ancestors;
use crate::process::ProcInfo;
use crate::text::chars_of;
use crate::text::contains_string;
use crate::text::lines;
use crate::text::lines_of;
use crate::text::seqs;
use crate::text::split_chars;
use crate::text::split_on;
use crate::text::starts_with;
use crate::text::starts_with_str;
use crate::text::string_of;
use crate::text::strs;
use crate::text::text_eq;
use crate::text::trim;
use crate::text::trim_chars;
use crate::text::trim_str;
use crate::text::truncate;
use crate::text::truncated;
use std::collections::HashMap;
use vstd::prelude::*;

verus! {

broadcast use vstd::std_specs::hash::group_hash_axioms;

/// One row of the session index.
#[derive(Debug)]
pub struct IndexEntry {
    pub session_id: String,
    pub session_dir: String,
    pub work_dir: String,
}

#[verifier::ext_equal]
pub struct EntryView {
    pub session_id: Seq<char>,
    pub session_dir: Seq<char>,
    pub work_dir: Seq<char>,
}

impl View for IndexEntry {
    type V = EntryView;

    open spec fn view(&self) -> EntryView {
        EntryView {
            session_id: self.session_id@,
            session_dir: self.session_dir@,
            work_dir: self.work_dir@,
        }
    }
}

/// What the rows of a vector stand for.
pub open spec fn rows(v: Seq<IndexEntry>) -> Seq<EntryView> {
    v.map_values(|x: IndexEntry| x@)
}

/// The last of the parts of a path that names something: neither empty nor a
/// single dot.
pub open spec fn last_component(parts: Seq<Seq<char>>) -> Option<Seq<char>>
    decreases parts.len(),
{
    if parts.len() == 0 {
        None
    } else if parts.last().len() == 0 || parts.last() == "."@ {
        last_component(parts.drop_last())
    } else {
        Some(parts.last())
    }
}

/// The name of the file or directory that a path leads to.
pub open spec fn file_name(path: Seq<char>) -> Option<Seq<char>> {
    match last_component(split_on(path, '/')) {
        Some(name) => if name == ".."@ {
            None
        } else {
            Some(name)
        },
        None => None,
    }
}

/// The name of the file or directory that a path leads to.
pub fn file_name_of(path: &str) -> (r: Option<String>)
    ensures
        opt_string(r) == file_name(path@),
{
    let parts = split_chars(chars_of(path).as_slice(), '/');
    let ghost all = split_on(path@, '/');
    let mut n: usize = parts.len();
    assert(all.take(n as int) =~= all);
    while n > 0
        invariant
            n <= parts@.len(),
            all == seqs(parts@),
            all == split_on(path@, '/'),
            last_component(all) == last_component(all.take(n as int)),
        decreases n,
    {
        let part = string_of(parts[n - 1].as_slice());
        assert(all.take(n as int).last() == part@);
        assert(all.take(n as int).drop_last() =~= all.take(n - 1));
        if !(part.as_str().is_empty() || text_eq(part.as_str(), ".")) {
            if text_eq(part.as_str(), "..") {
                return None;
            }
            return Some(part);
        }
        n -= 1;
    }
    None
}

/// The row that a document of the index describes.
pub open spec fn entry_in(doc: JsonTree) -> Option<EntryView> {
    match doc.get_str("sessionDir"@) {
        None => None,
        Some(dir) => Some(
            EntryView {
                session_id: match doc.get_str("sessionId"@) {
                    Some(id) => id,
                    None => or_empty(file_name(dir)),
                },
                session_dir: dir,
                work_dir: or_empty(doc.get_str("workDir"@)),
            },
        ),
    }
}

/// What an optional row stands for.
pub open spec fn opt_entry(e: Option<IndexEntry>) -> Option<EntryView> {
    match e {
        Some(x) => Some(x@),
        None => None,
    }
}

/// The row that a document of the index describes.
pub fn entry_of(doc: &Json) -> (r: Option<IndexEntry>)
    ensures
        opt_entry(r) == entry_in(doc@),
{
    let dir = match doc.get_str("sessionDir") {
        Some(d) => d,
        None => {
            return None;
        },
    };
    let session_id = match doc.get_str("sessionId") {
        Some(id) => id.to_owned(),
        None => match file_name_of(dir) {
            Some(name) => name,
            None => String::new(),
        },
    };
    let work_dir = match doc.get_str("workDir") {
        Some(w) => w.to_owned(),
        None => String::new(),
    };
    let entry = IndexEntry { session_id, session_dir: dir.to_owned(), work_dir };
    assert(entry@ =~= entry_in(doc@)->0);
    Some(entry)
}

/// The row that a line of the index describes.
pub open spec fn line_entry(line: Seq<char>) -> Option<EntryView> {
    if trim(line).len() == 0 {
        None
    } else {
        match json_text(trim(line)) {
            Some(doc) => entry_in(doc),
            None => None,
        }
    }
}

/// The rows that the lines of the index describe.
pub open spec fn line_entries(ls: Seq<Seq<char>>) -> Seq<EntryView>
    decreases ls.len(),
{
    if ls.len() == 0 {
        Seq::empty()
    } else {
        let rest = line_entries(ls.drop_last());
        match line_entry(ls.last()) {
            Some(e) => rest.push(e),
            None => rest,
        }
    }
}

/// The rows of the index.
pub fn parse_session_index(text: &str) -> (r: Vec<IndexEntry>)
    ensures
        rows(r@) == line_entries(lines(text@)),
{
    let ls = lines_of(chars_of(text).as_slice());
    let ghost all = lines(text@);
    let mut out: Vec<IndexEntry> = Vec::new();
    let mut i: usize = 0;
    assert(all.take(0) =~= Seq::empty());
    assert(rows(out@) =~= line_entries(all.take(0)));
    while i < ls.len()
        invariant
            i <= ls@.len(),
            all == seqs(ls@),
            rows(out@) == line_entries(all.take(i as int)),
        decreases ls@.len() - i,
    {
        let ghost before = rows(out@);
        assert(all.take(i + 1).drop_last() =~= all.take(i as int));
        assert(all.take(i + 1).last() == ls@[i as int]@);
        let line = string_of(trim_chars(ls[i].as_slice()).as_slice());
        if !line.as_str().is_empty() {
            if let Some(doc) = parse_json(line.as_str()) {
                if let Some(entry) = entry_of(&doc) {
                    out.push(entry);
                    assert(rows(out@) =~= before.push(entry@));
                }
            }
        }
        i += 1;
    }
    assert(all.take(i as int) =~= all);
    out
}

/// A directory that may hold a work directory's sessions.
#[derive(Debug)]
pub struct WorkDir {
    /// Its name, or nothing where that is no text.
    pub name: String,
    /// What it holds.
    pub entries: Vec<SessionDir>,
}

/// One entry of the directory that holds a work directory's sessions.
#[derive(Debug)]
pub struct SessionDir {
    /// Its name, or nothing where that is no text.
    pub name: String,
    pub path: String,
    pub is_dir: bool,
    pub is_symlink: bool,
    /// When it was changed, in nanoseconds from 1970.
    pub modified_ns: i128,
}

/// Whether a directory is named like those that hold a work directory's
/// sessions.
pub open spec fn is_work_dir_name(name: Seq<char>) -> bool {
    starts_with(name, "wd_"@)
}

/// Whether a directory is named like those of sessions, or like those of older
/// ones.
pub open spec fn is_session_name(name: Seq<char>) -> bool {
    starts_with(name, "session_"@) || starts_with(name, "ses_"@)
}

/// Whether the entry is the directory of a session.
pub open spec fn is_candidate(d: SessionDir) -> bool {
    d.is_dir && !d.is_symlink && is_session_name(d.name@)
}

/// Whether the entry is the directory of a session.
fn check_candidate(d: &SessionDir) -> (r: bool)
    ensures
        r == is_candidate(*d),
{
    d.is_dir && !d.is_symlink && (starts_with_str(d.name.as_str(), "session_") || starts_with_str(
        d.name.as_str(),
        "ses_",
    ))
}

/// Whether the entry at `i` is the first of those changed last.
pub open spec fn is_newest(dirs: Seq<SessionDir>, i: int) -> bool {
    &&& 0 <= i < dirs.len()
    &&& is_candidate(dirs[i])
    &&& forall|j: int|
        0 <= j < dirs.len() && is_candidate(#[trigger] dirs[j]) ==> dirs[j].modified_ns
            < dirs[i].modified_ns || (dirs[j].modified_ns == dirs[i].modified_ns && i <= j)
}

/// The row for the newest of the entries.
pub open spec fn newest_entry(dirs: Seq<SessionDir>) -> Option<EntryView> {
    if exists|i: int| is_newest(dirs, i) {
        let d = dirs[choose|i: int| is_newest(dirs, i)];
        Some(EntryView { session_id: d.name@, session_dir: d.path@, work_dir: Seq::empty() })
    } else {
        None
    }
}

/// The newest of the entries.
pub fn newest_of(dirs: &Vec<SessionDir>) -> (r: Option<usize>)
    ensures
        match r {
            Some(i) => is_newest(dirs@, i as int),
            None => forall|i: int| !is_newest(dirs@, i),
        },
{
    let mut best: Option<usize> = None;
    let mut i: usize = 0;
    while i < dirs.len()
        invariant
            i <= dirs@.len(),
            match best {
                Some(b) => b < i && is_candidate(dirs@[b as int]) && forall|j: int|
                    0 <= j < i && is_candidate(#[trigger] dirs@[j]) ==> dirs@[j].modified_ns
                        < dirs@[b as int].modified_ns || (dirs@[j].modified_ns
                        == dirs@[b as int].modified_ns && b <= j),
                None => forall|j: int| 0 <= j < i ==> !is_candidate(#[trigger] dirs@[j]),
            },
        decreases dirs@.len() - i,
    {
        if check_candidate(&dirs[i]) {
            match best {
                Some(b) => {
                    if dirs[i].modified_ns > dirs[b].modified_ns {
                        best = Some(i);
                    }
                },
                None => {
                    best = Some(i);
                },
            }
        }
        i += 1;
    }
    best
}

/// The rows for the newest session of every work directory.
pub open spec fn newest_entries(listing: Seq<WorkDir>) -> Seq<EntryView>
    decreases listing.len(),
{
    if listing.len() == 0 {
        Seq::empty()
    } else {
        let rest = newest_entries(listing.drop_last());
        match newest_entry(listing.last().entries@) {
            Some(e) => if is_work_dir_name(listing.last().name@) {
                rest.push(e)
            } else {
                rest
            },
            None => rest,
        }
    }
}

/// The rows for the newest session of every work directory.
pub fn scan_session_dirs(listing: &Vec<WorkDir>) -> (r: Vec<IndexEntry>)
    ensures
        rows(r@) == newest_entries(listing@),
{
    let mut out: Vec<IndexEntry> = Vec::new();
    let mut i: usize = 0;
    assert(listing@.take(0) =~= Seq::empty());
    assert(rows(out@) =~= newest_entries(listing@.take(0)));
    while i < listing.len()
        invariant
            i <= listing@.len(),
            rows(out@) == newest_entries(listing@.take(i as int)),
        decreases listing@.len() - i,
    {
        let ghost before = rows(out@);
        let dirs = &listing[i].entries;
        assert(listing@.take(i + 1).drop_last() =~= listing@.take(i as int));
        assert(listing@.take(i + 1).last() == listing@[i as int]);
        if starts_with_str(listing[i].name.as_str(), "wd_") {
            if let Some(k) = newest_of(dirs) {
                let entry = IndexEntry {
                    session_id: dirs[k].name.clone(),
                    session_dir: dirs[k].path.clone(),
                    work_dir: String::new(),
                };
                proof {
                    let c = choose|c: int| is_newest(dirs@, c);
                    assert(is_newest(dirs@, c));
                    assert(is_candidate(dirs@[c]) && is_candidate(dirs@[k as int]));
                    assert(c == k);
                    assert(entry@ =~= newest_entry(dirs@)->0);
                }
                out.push(entry);
                assert(rows(out@) =~= before.push(entry@));
            }
        }
        i += 1;
    }
    assert(listing@.take(i as int) =~= listing@);
    out
}

/// The sessions that there are: those of the index or, where there is none or
/// it names no session, the newest of every work directory.
pub open spec fn session_rows(text: Option<Seq<char>>, listing: Seq<WorkDir>) -> Seq<EntryView> {
    match text {
        Some(t) => if line_entries(lines(t)).len() > 0 {
            line_entries(lines(t))
        } else {
            newest_entries(listing)
        },
        None => newest_entries(listing),
    }
}

/// The sessions that there are, by the text of the index, where there is one,
/// and the directories of the sessions.
pub fn read_session_index(text: Option<&str>, listing: &Vec<WorkDir>) -> (r: Vec<IndexEntry>)
    ensures
        rows(r@) == session_rows(crate::json::opt_chars(text), listing@),
{
    if let Some(t) = text {
        let indexed = parse_session_index(t);
        assert(rows(indexed@).len() == indexed@.len());
        if indexed.len() > 0 {
            return indexed;
        }
    }
    scan_session_dirs(listing)
}

/// The process number that the lock of the server names.
pub open spec fn lock_pid(doc: JsonTree) -> Option<u32> {
    match doc.get_u64("pid"@) {
        Some(n) => if n <= u32::MAX {
            Some(n as u32)
        } else {
            None
        },
        None => None,
    }
}

/// The process number that the lock of the server names.
pub fn lock_pid_of(doc: &Json) -> (r: Option<u32>)
    ensures
        r == lock_pid(doc@),
{
    match doc.get_u64("pid") {
        Some(n) => if n <= 0xffff_ffff {
            Some(n as u32)
        } else {
            None
        },
        None => None,
    }
}

/// The process number of the server, by the text of its lock.
pub fn read_server_lock_pid(text: &str) -> (r: Option<u32>)
    ensures
        r == match json_text(text@) {
            Some(doc) => lock_pid(doc),
            None => None,
        },
{
    match parse_json(text) {
        Some(doc) => lock_pid_of(&doc),
        None => None,
    }
}

/// The title that the state of a session holds, as it is shown.
pub open spec fn shown_title<P: HostPolicy>(policy: P, doc: JsonTree) -> Option<Seq<char>> {
    let title = trim(or_empty(doc.get_str("title"@)));
    if title.len() == 0 {
        None
    } else {
        Some(policy.redacted(truncated(title, 80)))
    }
}

/// The title that the state of a session holds, as it is shown.
pub fn title_of<P: HostPolicy>(policy: &P, doc: &Json) -> (r: Option<String>)
    ensures
        opt_string(r) == shown_title(*policy, doc@),
{
    let title = match doc.get_str("title") {
        Some(t) => trim_str(t),
        None => String::new(),
    };
    proof {
        assert(trim(Seq::empty()) =~= Seq::<char>::empty());
    }
    if title.as_str().is_empty() {
        None
    } else {
        let short = truncate(title.as_str(), 80);
        Some(policy.redact_secrets(short.as_str()))
    }
}

/// The title of a session, by the text of its state.
pub fn read_state_title<P: HostPolicy>(policy: &P, text: &str) -> (r: Option<String>)
    ensures
        opt_string(r) == match json_text(text@) {
            Some(doc) => shown_title(*policy, doc),
            None => None,
        },
{
    match parse_json(text) {
        Some(doc) => title_of(policy, &doc),
        None => None,
    }
}

/// The working directories of the processes, where they are known.
pub open spec fn dirs_of(pids: Seq<u32>, cwds: Map<u32, String>) -> Seq<Seq<char>>
    decreases pids.len(),
{
    if pids.len() == 0 {
        Seq::empty()
    } else {
        let rest = dirs_of(pids.drop_last(), cwds);
        if cwds.contains_key(pids.last()) {
            rest.push(cwds[pids.last()]@)
        } else {
            rest
        }
    }
}

/// The directories from which a process may have been launched: those of the
/// processes above it.
pub open spec fn launch_dirs(
    info: Map<u32, ProcInfo>,
    cwds: Map<u32, String>,
    pid: u32,
) -> Seq<Seq<char>> {
    dirs_of(ancestors(info, pid), cwds)
}

/// The directories from which a process may have been launched, its parent's
/// first.
pub fn ancestor_workdirs(
    pid: u32,
    process_info: &HashMap<u32, ProcInfo>,
    cwds: &HashMap<u32, String>,
) -> (r: Vec<String>)
    ensures
        strs(r@) == launch_dirs(process_info@, cwds@, pid),
{
    let chain = ancestor_pids(pid, process_info);
    let mut out: Vec<String> = Vec::new();
    let mut i: usize = 0;
    assert(chain@.take(0) =~= Seq::empty());
    assert(strs(out@) =~= dirs_of(chain@.take(0), cwds@));
    while i < chain.len()
        invariant
            i <= chain@.len(),
            strs(out@) == dirs_of(chain@.take(i as int), cwds@),
        decreases chain@.len() - i,
    {
        let ghost before = strs(out@);
        assert(chain@.take(i + 1).drop_last() =~= chain@.take(i as int));
        assert(chain@.take(i + 1).last() == chain@[i as int]);
        if let Some(cwd) = cwds.get(&chain[i]) {
            out.push(cwd.clone());
            assert(strs(out@) =~= before.push(cwd@));
        }
        i += 1;
    }
    assert(chain@.take(i as int) =~= chain@);
    out
}

/// The first of the processes that may have been launched from `dir`.
pub open spec fn claimant(
    pids: Seq<u32>,
    info: Map<u32, ProcInfo>,
    cwds: Map<u32, String>,
    dir: Seq<char>,
) -> Option<u32>
    decreases pids.len(),
{
    if pids.len() == 0 {
        None
    } else if launch_dirs(info, cwds, pids[0]).contains(dir) {
        Some(pids[0])
    } else {
        claimant(pids.drop_first(), info, cwds, dir)
    }
}

/// The first of the processes that may have been launched from `dir`.
pub fn pid_of_workdir(
    pids: &Vec<u32>,
    process_info: &HashMap<u32, ProcInfo>,
    cwds: &HashMap<u32, String>,
    dir: &str,
) -> (r: Option<u32>)
    ensures
        r == claimant(pids@, process_info@, cwds@, dir@),
{
    let ghost info = process_info@;
    let mut i: usize = 0;
    assert(pids@.skip(0) =~= pids@);
    while i < pids.len()
        invariant
            i <= pids@.len(),
            info == process_info@,
            claimant(pids@, info, cwds@, dir@) == claimant(
                pids@.skip(i as int),
                info,
                cwds@,
                dir@,
            ),
        decreases pids@.len() - i,
    {
        assert(pids@.skip(i as int).drop_first() =~= pids@.skip(i + 1));
        assert(pids@.skip(i as int)[0] == pids@[i as int]);
        let dirs = ancestor_workdirs(pids[i], process_info, cwds);
        if contains_string(&dirs, dir) {
            return Some(pids[i]);
        }
        i += 1;
    }
    None
}

/// A session of the index and what its files say.
#[derive(Debug)]
pub struct KnownSession {
    pub entry: IndexEntry,
    /// Whether its directory is there.
    pub is_dir: bool,
    /// When its log was changed, in milliseconds from 1970, where that is
    /// known.
    pub wire_mtime_ms: Option<u64>,
    /// How many seconds ago its log was changed, or the largest number where
    /// that is not known.
    pub wire_age_secs: u64,
    /// Its log, where there is one and it was read.
    pub log: Option<LogFile>,
    /// Its title, as it is shown, or nothing.
    pub title: String,
}

impl KnownSession {
    /// When the log was changed, or 0.
    pub open spec fn changed(self) -> u64 {
        match self.wire_mtime_ms {
            Some(ms) => ms,
            None => 0,
        }
    }

    /// When the log was changed, or 0.
    pub fn changed_ms(&self) -> (r: u64)
        ensures
            r == self.changed(),
    {
        match self.wire_mtime_ms {
            Some(ms) => ms,
            None => 0,
        }
    }
}

/// Whether the session at `i` is the current one of its work directory: the
/// directory is live, and no other session of it was active later, nor at the
/// same time and named before.
pub open spec fn is_current(known: Seq<KnownSession>, live: Seq<Seq<char>>, i: int) -> bool {
    &&& 0 <= i < known.len()
    &&& known[i].entry.work_dir@.len() > 0
    &&& live.contains(known[i].entry.work_dir@)
    &&& forall|j: int|
        0 <= j < known.len() && (#[trigger] known[j]).entry.work_dir@ == known[i].entry.work_dir@
            ==> known[j].changed() < known[i].changed() || (known[j].changed()
            == known[i].changed() && i <= j)
}

/// Whether the identifier is that of a current session.
pub open spec fn is_current_id(
    known: Seq<KnownSession>,
    live: Seq<Seq<char>>,
    id: Seq<char>,
) -> bool {
    exists|i: int| #[trigger] is_current(known, live, i) && known[i].entry.session_id@ == id
}

/// Whether the session at `i` is the current one of its work directory.
fn check_current(known: &Vec<KnownSession>, live: &Vec<String>, i: usize) -> (r: bool)
    requires
        i < known@.len(),
    ensures
        r == is_current(known@, strs(live@), i as int),
{
    let dir = known[i].entry.work_dir.as_str();
    if dir.is_empty() || !contains_string(live, dir) {
        return false;
    }
    let changed = known[i].changed_ms();
    let mut j: usize = 0;
    while j < known.len()
        invariant
            i < known@.len(),
            j <= known@.len(),
            dir@ == known@[i as int].entry.work_dir@,
            changed == known@[i as int].changed(),
            forall|k: int|
                0 <= k < j && (#[trigger] known@[k]).entry.work_dir@ == dir@
                    ==> known@[k].changed() < changed || (known@[k].changed() == changed && i
                    <= k),
        decreases known@.len() - j,
    {
        if text_eq(known[j].entry.work_dir.as_str(), dir) {
            let other = known[j].changed_ms();
            if other > changed || (other == changed && j < i) {
                assert(known@[j as int].entry.work_dir@ == dir@);
                return false;
            }
        }
        j += 1;
    }
    true
}

/// The identifiers of the current sessions of the live work directories.
pub fn current_session_ids(known: &Vec<KnownSession>, live_workdirs: &Vec<String>) -> (r: Vec<
    String,
>)
    ensures
        strs(r@).no_duplicates(),
        forall|id: Seq<char>| #[trigger]
            strs(r@).contains(id) <==> is_current_id(known@, strs(live_workdirs@), id),
{
    let ghost live = strs(live_workdirs@);
    let mut out: Vec<String> = Vec::new();
    let mut i: usize = 0;
    while i < known.len()
        invariant
            i <= known@.len(),
            live == strs(live_workdirs@),
            strs(out@).no_duplicates(),
            forall|id: Seq<char>| #[trigger]
                strs(out@).contains(id) ==> is_current_id(known@, live, id),
            forall|k: int|
                0 <= k < i && #[trigger] is_current(known@, live, k) ==> strs(out@).contains(
                    known@[k].entry.session_id@,
                ),
        decreases known@.len() - i,
    {
        if check_current(known, live_workdirs, i) {
            let id = known[i].entry.session_id.as_str();
            if !contains_string(&out, id) {
                let ghost before = strs(out@);
                out.push(id.to_owned());
                assert(strs(out@) =~= before.push(id@));
                assert forall|x: Seq<char>| #[trigger] strs(out@).contains(x) implies is_current_id(
                    known@,
                    live,
                    x,
                ) by {
                    if x != id@ {
                        let k = choose|k: int| 0 <= k < strs(out@).len() && strs(out@)[k] == x;
                        assert(before[k] == x);
                        assert(before.contains(x));
                    } else {
                        assert(is_current(known@, live, i as int));
                    }
                }
                assert forall|k: int| 0 <= k < i + 1 && #[trigger] is_current(
                    known@,
                    live,
                    k,
                ) implies strs(out@).contains(known@[k].entry.session_id@) by {
                    if k < i {
                        let x = known@[k].entry.session_id@;
                        let m = choose|m: int| 0 <= m < before.len() && before[m] == x;
                        assert(strs(out@)[m] == x);
                    } else {
                        assert(strs(out@)[before.len() as int] == id@);
                    }
                }
            }
        }
        i += 1;
    }
    out
}

/// A work directory has at most one current session: what ran there before
/// stays hidden.
pub proof fn law_one_current_session_per_workdir(
    known: Seq<KnownSession>,
    live: Seq<Seq<char>>,
    i: int,
    j: int,
)
    requires
        is_current(known, live, i),
        is_current(known, live, j),
        known[i].entry.work_dir@ == known[j].entry.work_dir@,
    ensures
        i == j,
{
}

proof fn lemma_latest(known: Seq<KnownSession>, dir: Seq<char>, n: int) -> (best: int)
    requires
        0 <= n <= known.len(),
        exists|k: int| 0 <= k < n && (#[trigger] known[k]).entry.work_dir@ == dir,
    ensures
        0 <= best < n,
        known[best].entry.work_dir@ == dir,
        forall|j: int|
            0 <= j < n && (#[trigger] known[j]).entry.work_dir@ == dir ==> known[j].changed()
                < known[best].changed() || (known[j].changed() == known[best].changed() && best
                <= j),
    decreases n,
{
    let last = known[n - 1];
    if exists|k: int| 0 <= k < n - 1 && (#[trigger] known[k]).entry.work_dir@ == dir {
        let b = lemma_latest(known, dir, n - 1);
        if last.entry.work_dir@ == dir && last.changed() > known[b].changed() {
            n - 1
        } else {
            b
        }
    } else {
        let k = choose|k: int| 0 <= k < n && (#[trigger] known[k]).entry.work_dir@ == dir;
        assert(k == n - 1);
        n - 1
    }
}

/// A live work directory that has a session has a current one.
pub proof fn law_live_workdir_has_current_session(
    known: Seq<KnownSession>,
    live: Seq<Seq<char>>,
    k: int,
)
    requires
        0 <= k < known.len(),
        known[k].entry.work_dir@.len() > 0,
        live.contains(known[k].entry.work_dir@),
    ensures
        exists|i: int| #[trigger]
            is_current(known, live, i) && known[i].entry.work_dir@ == known[k].entry.work_dir@,
{
    let best = lemma_latest(known, known[k].entry.work_dir@, known.len() as int);
    assert(is_current(known, live, best));
}

/// Where no session's directory is live, none is current.
pub proof fn law_unrelated_workdir_has_no_current_session(
    known: Seq<KnownSession>,
    live: Seq<Seq<char>>,
    id: Seq<char>,
)
    requires
        forall|i: int|
            0 <= i < known.len() ==> !live.contains((#[trigger] known[i]).entry.work_dir@),
    ensures
        !is_current_id(known, live, id),
{
}

} // verus!
