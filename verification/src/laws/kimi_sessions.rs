//! Which sessions kimi-code has, which of them are shown, and with which
//! process.
use crate::json::JsonTree;
use crate::json::json_text;
use crate::kimi::collector::attached_pid;
use crate::kimi::collector::is_kimi_process;
use crate::kimi::collector::is_running;
use crate::kimi::collector::live_dirs;
use crate::kimi::collector::planned;
use crate::kimi::collector::shown_among;
use crate::kimi::config::ConfigRoot;
use crate::kimi::config::RootFacts;
use crate::kimi::config::root_choice;
use crate::kimi::index::EntryView;
use crate::kimi::index::KnownSession;
use crate::kimi::index::SessionDir;
use crate::kimi::index::WorkDir;
use crate::kimi::index::claimant;
use crate::kimi::index::dirs_of;
use crate::kimi::index::entry_in;
use crate::kimi::index::file_name;
use crate::kimi::index::is_current;
use crate::kimi::index::is_current_id;
use crate::kimi::index::is_newest;
use crate::kimi::index::last_component;
use crate::kimi::index::launch_dirs;
use crate::kimi::index::line_entries;
use crate::kimi::index::line_entry;
use crate::kimi::index::lock_pid;
use crate::kimi::index::newest_entries;
use crate::kimi::index::newest_entry;
use crate::kimi::index::session_rows;
use crate::kimi::index::shown_title;
use crate::laws::text::is_free_of;
use crate::laws::text::law_beginning_is_followed;
use crate::laws::text::law_text_is_split_at_separators;
use crate::laws::text::lemma_last_part;
use crate::policy::HostPolicy;
use crate::process::ProcInfo;
use crate::process::ancestors;
use crate::process::binary_name;
use crate::text::lines;
use crate::text::split_on;
use crate::text::trim;
use crate::text::truncated;
use vstd::prelude::*;

verus! {

/// A row of the index names the directory of a session, and may name the
/// session and its work directory. A row without the directory is none.
pub proof fn law_rows_name_sessions(doc: JsonTree)
    ensures
        entry_in(doc) is Some <==> doc.get_str("sessionDir"@) is Some,
        entry_in(doc) is Some ==> {
            let row = entry_in(doc)->0;
            &&& Some(row.session_dir) == doc.get_str("sessionDir"@)
            &&& doc.get_str("sessionId"@) is Some ==> Some(row.session_id) == doc.get_str(
                "sessionId"@,
            )
            &&& doc.get_str("workDir"@) is Some ==> Some(row.work_dir) == doc.get_str("workDir"@)
            &&& doc.get_str("workDir"@) is None ==> row.work_dir.len() == 0
        },
{
}

/// The index has a row for each line that describes one, in order; blank lines
/// and lines that are no documents are passed over.
pub proof fn law_index_has_a_row_for_each_line(ls: Seq<Seq<char>>, line: Seq<char>)
    ensures
        line_entries(Seq::empty()).len() == 0,
        line_entry(line) is Some ==> line_entries(ls.push(line)) == line_entries(ls).push(
            line_entry(line)->0,
        ),
        line_entry(line) is None ==> line_entries(ls.push(line)) == line_entries(ls),
        trim(line).len() > 0 && json_text(trim(line)) is Some ==> line_entry(line) == entry_in(
            json_text(trim(line))->0,
        ),
        trim(line).len() == 0 || json_text(trim(line)) is None ==> line_entry(line) is None,
{
    assert(ls.push(line).drop_last() =~= ls);
}

/// The sessions are those of the index; the directories count only where it
/// gives none.
pub proof fn law_index_comes_before_directories(text: Seq<char>, listing: Seq<WorkDir>)
    ensures
        line_entries(lines(text)).len() > 0 ==> session_rows(Some(text), listing) == line_entries(
            lines(text),
        ),
        line_entries(lines(text)).len() == 0 ==> session_rows(Some(text), listing) == session_rows(
            None,
            listing,
        ),
        session_rows(None, listing) == newest_entries(listing),
{
}

/// Whether a name begins so.
pub open spec fn begins(name: Seq<char>, with: Seq<char>) -> bool {
    exists|rest: Seq<char>| name == #[trigger] (with + rest)
}

/// Whether an entry is the directory of a session: a directory of its own, named
/// like one.
pub open spec fn is_session_dir(d: SessionDir) -> bool {
    d.is_dir && !d.is_symlink && (begins(d.name@, "session_"@) || begins(d.name@, "ses_"@))
}

proof fn lemma_session_dir(d: SessionDir)
    ensures
        crate::kimi::index::is_candidate(d) <==> is_session_dir(d),
{
    lemma_begins(d.name@, "session_"@);
    lemma_begins(d.name@, "ses_"@);
}

proof fn lemma_begins(name: Seq<char>, with: Seq<char>)
    ensures
        crate::text::starts_with(name, with) <==> begins(name, with),
{
    law_beginning_is_followed(name, with);
    if begins(name, with) {
        let rest = choose|rest: Seq<char>| name == #[trigger] (with + rest);
        assert(name == with + rest);
    }
}

/// A work directory's session is the one changed last among its session
/// directories, the first of those changed at the same time; there is none
/// where it has no such directory.
pub proof fn law_newest_directory_is_the_session(dirs: Seq<SessionDir>, i: int)
    ensures
        newest_entry(dirs) is None <==> forall|k: int|
            0 <= k < dirs.len() ==> !is_session_dir(#[trigger] dirs[k]),
        0 <= i < dirs.len() && is_session_dir(dirs[i]) && (forall|k: int|
            0 <= k < dirs.len() && is_session_dir(#[trigger] dirs[k]) ==> dirs[k].modified_ns
                < dirs[i].modified_ns || (dirs[k].modified_ns == dirs[i].modified_ns && i <= k))
            ==> newest_entry(dirs) == Some(
            (EntryView {
                session_id: dirs[i].name@,
                session_dir: dirs[i].path@,
                work_dir: Seq::empty(),
            }),
        ),
{
    assert forall|k: int| 0 <= k < dirs.len() implies crate::kimi::index::is_candidate(
        #[trigger] dirs[k],
    ) == is_session_dir(dirs[k]) by {
        lemma_session_dir(dirs[k]);
    }
    if 0 <= i < dirs.len() && is_session_dir(dirs[i]) && (forall|k: int|
        0 <= k < dirs.len() && is_session_dir(#[trigger] dirs[k]) ==> dirs[k].modified_ns
            < dirs[i].modified_ns || (dirs[k].modified_ns == dirs[i].modified_ns && i <= k)) {
        assert(is_newest(dirs, i));
        let c = choose|c: int| is_newest(dirs, c);
        assert(is_newest(dirs, c));
        assert(is_session_dir(dirs[c]));
        assert(c == i);
    }
    if exists|k: int| 0 <= k < dirs.len() && is_session_dir(#[trigger] dirs[k]) {
        let n = lemma_has_newest(dirs, dirs.len() as int);
        assert(is_newest(dirs, n));
    }
    if newest_entry(dirs) is Some {
        let c = choose|c: int| is_newest(dirs, c);
        assert(is_newest(dirs, c));
        assert(is_session_dir(dirs[c]));
    }
}

proof fn lemma_has_newest(dirs: Seq<SessionDir>, n: int) -> (best: int)
    requires
        0 <= n <= dirs.len(),
        exists|k: int| 0 <= k < n && is_session_dir(#[trigger] dirs[k]),
        forall|k: int|
            0 <= k < dirs.len() ==> crate::kimi::index::is_candidate(#[trigger] dirs[k])
                == is_session_dir(dirs[k]),
    ensures
        0 <= best < n,
        is_session_dir(dirs[best]),
        forall|j: int|
            0 <= j < n && is_session_dir(#[trigger] dirs[j]) ==> dirs[j].modified_ns
                < dirs[best].modified_ns || (dirs[j].modified_ns == dirs[best].modified_ns && best
                <= j),
    decreases n,
{
    if exists|k: int| 0 <= k < n - 1 && is_session_dir(#[trigger] dirs[k]) {
        let b = lemma_has_newest(dirs, n - 1);
        if is_session_dir(dirs[n - 1]) && dirs[n - 1].modified_ns > dirs[b].modified_ns {
            n - 1
        } else {
            b
        }
    } else {
        let k = choose|k: int| 0 <= k < n && is_session_dir(#[trigger] dirs[k]);
        assert(k == n - 1);
        n - 1
    }
}

/// Every directory named like one of a work directory gives its session, in
/// order; others give none.
pub proof fn law_work_directories_are_scanned(listing: Seq<WorkDir>, dir: WorkDir)
    ensures
        newest_entries(Seq::empty()).len() == 0,
        begins(dir.name@, "wd_"@) && newest_entry(dir.entries@) is Some ==> newest_entries(
            listing.push(dir),
        ) == newest_entries(listing).push(newest_entry(dir.entries@)->0),
        !begins(dir.name@, "wd_"@) || newest_entry(dir.entries@) is None ==> newest_entries(
            listing.push(dir),
        ) == newest_entries(listing),
{
    assert(listing.push(dir).drop_last() =~= listing);
    lemma_begins(dir.name@, "wd_"@);
}

/// The server's lock names its process by a whole number that can be one.
pub proof fn law_lock_names_the_server(doc: JsonTree)
    ensures
        lock_pid(doc) is Some <==> doc.get_u64("pid"@) is Some && doc.get_u64("pid"@)->0
            < 0x1_0000_0000,
        lock_pid(doc) is Some ==> lock_pid(doc)->0 == doc.get_u64("pid"@)->0,
{
}

/// A title is shown trimmed, cut to 80 characters and then freed of secrets; a
/// blank one is none.
pub proof fn law_title_is_shown<P: HostPolicy>(policy: P, doc: JsonTree)
    ensures
        doc.get_str("title"@) is Some && trim(doc.get_str("title"@)->0).len() > 0 ==> shown_title(
            policy,
            doc,
        ) == Some(policy.redacted(truncated(trim(doc.get_str("title"@)->0), 80))),
        doc.get_str("title"@) is None || trim(doc.get_str("title"@)->0).len() == 0 ==> shown_title(
            policy,
            doc,
        ) is None,
{
    assert(trim(Seq::empty()) =~= Seq::<char>::empty());
}

proof fn lemma_dirs_of(pids: Seq<u32>, cwds: Map<u32, String>, dir: Seq<char>)
    ensures
        dirs_of(pids, cwds).contains(dir) <==> exists|k: int|
            0 <= k < pids.len() && cwds.contains_key(#[trigger] pids[k]) && cwds[pids[k]]@ == dir,
    decreases pids.len(),
{
    if pids.len() > 0 {
        let most = pids.drop_last();
        let n = pids.len() - 1;
        let rest = dirs_of(most, cwds);
        let all = dirs_of(pids, cwds);
        lemma_dirs_of(most, cwds, dir);
        if all.contains(dir) {
            let j = choose|j: int| 0 <= j < all.len() && all[j] == dir;
            if j < rest.len() {
                assert(rest[j] == dir);
                let k = choose|k: int|
                    0 <= k < most.len() && cwds.contains_key(#[trigger] most[k]) && cwds[most[k]]@
                        == dir;
                assert(pids[k] == most[k]);
            } else {
                assert(pids[n] == pids.last());
            }
        }
        if exists|k: int|
            0 <= k < pids.len() && cwds.contains_key(#[trigger] pids[k]) && cwds[pids[k]]@ == dir {
            let k = choose|k: int|
                0 <= k < pids.len() && cwds.contains_key(#[trigger] pids[k]) && cwds[pids[k]]@
                    == dir;
            if k < n {
                assert(most[k] == pids[k]);
                let j = choose|j: int| 0 <= j < rest.len() && rest[j] == dir;
                assert(all[j] == dir);
            } else {
                assert(all[all.len() - 1] == dir);
            }
        }
    }
}

/// A process may have been launched from the directory of a process above it,
/// and from no other: not from its own.
pub proof fn law_launch_directories_are_those_above(
    info: Map<u32, ProcInfo>,
    cwds: Map<u32, String>,
    pid: u32,
    dir: Seq<char>,
)
    ensures
        launch_dirs(info, cwds, pid).contains(dir) <==> exists|k: int|
            0 <= k < ancestors(info, pid).len() && cwds.contains_key(
                #[trigger] ancestors(info, pid)[k],
            ) && cwds[ancestors(info, pid)[k]]@ == dir,
{
    lemma_dirs_of(ancestors(info, pid), cwds, dir);
}

/// A directory is claimed by the first of the processes that may have been
/// launched from it.
pub proof fn law_first_launched_claims_the_directory(
    pids: Seq<u32>,
    info: Map<u32, ProcInfo>,
    cwds: Map<u32, String>,
    dir: Seq<char>,
    i: int,
)
    ensures
        0 <= i < pids.len() && launch_dirs(info, cwds, pids[i]).contains(dir) && (forall|k: int|
            0 <= k < i ==> !launch_dirs(info, cwds, #[trigger] pids[k]).contains(dir)) ==> claimant(
            pids,
            info,
            cwds,
            dir,
        ) == Some(pids[i]),
        (forall|k: int|
            0 <= k < pids.len() ==> !launch_dirs(info, cwds, #[trigger] pids[k]).contains(dir))
            ==> claimant(pids, info, cwds, dir) is None,
    decreases pids.len(),
{
    if pids.len() > 0 {
        let rest = pids.drop_first();
        law_first_launched_claims_the_directory(rest, info, cwds, dir, i - 1);
        assert forall|k: int| 0 <= k < rest.len() implies #[trigger] rest[k] == pids[k + 1] by {}
    }
}

/// A session is shown with the process that claims its work directory; where
/// none does, or it has no work directory, with the server, or else with none.
pub proof fn law_session_goes_with_its_claimant(
    session: KnownSession,
    pids: Seq<u32>,
    server: Option<u32>,
    info: Map<u32, ProcInfo>,
    cwds: Map<u32, String>,
)
    ensures
        ({
            let pid = attached_pid(session, pids, server, info, cwds);
            let dir = session.entry.work_dir@;
            let claim = claimant(pids, info, cwds, dir);
            &&& dir.len() > 0 && claim is Some ==> pid == claim->0
            &&& (dir.len() == 0 || claim is None) && server is Some ==> pid == server->0
            &&& (dir.len() == 0 || claim is None) && server is None ==> pid == 0
        }),
{
}

/// When the log of a session changed, or 0 where that is not known.
pub open spec fn last_change(session: KnownSession) -> u64 {
    match session.wire_mtime_ms {
        Some(ms) => ms,
        None => 0,
    }
}

/// A session is current if and only if its work directory is live, and no other
/// session of that directory changed later, nor at the same time and named
/// before.
pub proof fn law_current_session_changed_last(
    known: Seq<KnownSession>,
    live: Seq<Seq<char>>,
    i: int,
)
    requires
        0 <= i < known.len(),
    ensures
        is_current(known, live, i) <==> known[i].entry.work_dir@.len() > 0 && live.contains(
            known[i].entry.work_dir@,
        ) && forall|j: int|
            0 <= j < known.len() && j != i && (#[trigger] known[j]).entry.work_dir@
                == known[i].entry.work_dir@ ==> last_change(known[j]) < last_change(known[i]) || (
            last_change(known[j]) == last_change(known[i]) && i < j),
{
}

/// The identifier of a session is current where some session of that name is.
pub proof fn law_current_names_are_those_of_current_sessions(
    known: Seq<KnownSession>,
    live: Seq<Seq<char>>,
    id: Seq<char>,
)
    ensures
        is_current_id(known, live, id) <==> exists|i: int|
            0 <= i < known.len() && (#[trigger] known[i]).entry.session_id@ == id && is_current(
                known,
                live,
                i,
            ),
{
    if is_current_id(known, live, id) {
        let i = choose|i: int| #[trigger]
            is_current(known, live, i) && known[i].entry.session_id@ == id;
        assert(known[i].entry.session_id@ == id);
    }
}

/// The agent runs where its server is among the processes, or any process of it
/// was found.
pub proof fn law_agent_runs(info: Map<u32, ProcInfo>, pids: Seq<u32>, server: Option<u32>)
    ensures
        is_running(info, pids, server) <==> pids.len() != 0 || (server is Some
            && info.dom().contains(server->0)),
{
}

proof fn lemma_shown(
    sessions: Seq<KnownSession>,
    pids: Seq<u32>,
    server: Option<u32>,
    info: Map<u32, ProcInfo>,
    cwds: Map<u32, String>,
    n: nat,
    i: int,
)
    requires
        n <= sessions.len() <= usize::MAX,
    ensures
        ({
            let shown = shown_among(sessions, pids, server, info, cwds, n);
            let live = live_dirs(pids, info, cwds);
            &&& (0 <= i < n && sessions[i].is_dir && (is_current_id(
                sessions,
                live,
                sessions[i].entry.session_id@,
            ) || sessions[i].wire_age_secs < 300)) <==> exists|a: int|
                0 <= a < shown.len() && (#[trigger] shown[a]).index == i
            &&& forall|a: int|
                0 <= a < shown.len() ==> (#[trigger] shown[a]).index < n && shown[a].pid
                    == attached_pid(sessions[shown[a].index as int], pids, server, info, cwds)
        }),
    decreases n,
{
    if n > 0 {
        let m = (n - 1) as nat;
        lemma_shown(sessions, pids, server, info, cwds, m, i);
        let rest = shown_among(sessions, pids, server, info, cwds, m);
        let shown = shown_among(sessions, pids, server, info, cwds, n);
        assert forall|a: int| 0 <= a < shown.len() implies (#[trigger] shown[a]).index < n
            && shown[a].pid == attached_pid(
            sessions[shown[a].index as int],
            pids,
            server,
            info,
            cwds,
        ) by {
            if a < rest.len() {
                assert(shown[a] == rest[a]);
            }
        }
        if exists|a: int| 0 <= a < rest.len() && (#[trigger] rest[a]).index == i {
            let a = choose|a: int| 0 <= a < rest.len() && (#[trigger] rest[a]).index == i;
            assert(shown[a].index == i);
        }
        if i == m && shown.len() > rest.len() {
            assert(shown[rest.len() as int].index == i);
        }
        if exists|a: int| 0 <= a < shown.len() && (#[trigger] shown[a]).index == i {
            let a = choose|a: int| 0 <= a < shown.len() && (#[trigger] shown[a]).index == i;
            if a < rest.len() {
                assert(rest[a].index == i);
            }
        }
    }
}

/// Where the agent runs, a session is shown if and only if its directory is
/// there, and it is the current one of a live work directory or its log changed
/// within the last five minutes; it is shown with the process that it goes
/// with. Where the agent does not run, none is shown.
pub proof fn law_sessions_that_are_shown(
    sessions: Seq<KnownSession>,
    pids: Seq<u32>,
    server: Option<u32>,
    info: Map<u32, ProcInfo>,
    cwds: Map<u32, String>,
    i: int,
)
    requires
        sessions.len() <= usize::MAX,
    ensures
        ({
            let shown = planned(sessions, pids, server, info, cwds);
            let live = live_dirs(pids, info, cwds);
            &&& is_running(info, pids, server) ==> ((0 <= i < sessions.len() && sessions[i].is_dir
                && (is_current_id(sessions, live, sessions[i].entry.session_id@)
                || sessions[i].wire_age_secs < 300)) <==> exists|a: int|
                0 <= a < shown.len() && (#[trigger] shown[a]).index == i)
            &&& forall|a: int|
                0 <= a < shown.len() ==> (#[trigger] shown[a]).pid == attached_pid(
                    sessions[shown[a].index as int],
                    pids,
                    server,
                    info,
                    cwds,
                )
            &&& !is_running(info, pids, server) ==> shown.len() == 0
        }),
{
    lemma_shown(sessions, pids, server, info, cwds, sessions.len(), i);
    let shown = planned(sessions, pids, server, info, cwds);
    if is_running(info, pids, server) {
        assert(shown == shown_among(sessions, pids, server, info, cwds, sessions.len()));
    } else {
        assert(shown.len() == 0);
    }
}

/// The live directories are those from which one of the processes may have been
/// launched.
pub proof fn law_live_directories_are_launched_from(
    pids: Seq<u32>,
    info: Map<u32, ProcInfo>,
    cwds: Map<u32, String>,
    dir: Seq<char>,
)
    ensures
        live_dirs(pids, info, cwds).contains(dir) <==> exists|k: int|
            0 <= k < pids.len() && launch_dirs(info, cwds, #[trigger] pids[k]).contains(dir),
    decreases pids.len(),
{
    if pids.len() > 0 {
        let rest = pids.drop_first();
        let first = launch_dirs(info, cwds, pids[0]);
        let more = live_dirs(rest, info, cwds);
        let all = live_dirs(pids, info, cwds);
        law_live_directories_are_launched_from(rest, info, cwds, dir);
        if all.contains(dir) {
            let j = choose|j: int| 0 <= j < all.len() && all[j] == dir;
            if j < first.len() {
                assert(first[j] == dir);
                assert(first.contains(dir));
            } else {
                assert(more[j - first.len()] == dir);
                assert(more.contains(dir));
                let k = choose|k: int|
                    0 <= k < rest.len() && launch_dirs(info, cwds, #[trigger] rest[k]).contains(
                        dir,
                    );
                assert(pids[k + 1] == rest[k]);
            }
        }
        if exists|k: int|
            0 <= k < pids.len() && launch_dirs(info, cwds, #[trigger] pids[k]).contains(dir) {
            let k = choose|k: int|
                0 <= k < pids.len() && launch_dirs(info, cwds, #[trigger] pids[k]).contains(dir);
            if k == 0 {
                let j = choose|j: int| 0 <= j < first.len() && first[j] == dir;
                assert(all[j] == dir);
            } else {
                assert(rest[k - 1] == pids[k]);
                let j = choose|j: int| 0 <= j < more.len() && more[j] == dir;
                assert(all[first.len() + j] == dir);
            }
        }
    }
}

/// A process is one of kimi-code where its binary is named so, and it does not
/// run below this program.
pub proof fn law_kimi_is_told_by_its_binary(info: Map<u32, ProcInfo>, self_pid: u32, pid: u32)
    ensures
        is_kimi_process(info, self_pid, pid) <==> info.dom().contains(pid) && binary_name(
            info[pid].command@,
        ) == "kimi-code"@ && !ancestors(info, pid).contains(self_pid),
{
}

/// The configuration stands where the environment says. Where it says nothing,
/// it stands in the current directory if that holds sessions, unless only the
/// legacy one of two has an index; in the legacy one if only that holds
/// sessions; and in the current one if neither does.
pub proof fn law_configuration_is_found(named: bool, current: RootFacts, legacy: RootFacts)
    ensures
        named ==> root_choice(named, current, legacy) == ConfigRoot::Named,
        !named && !(legacy.is_dir && legacy.has_sessions) ==> root_choice(named, current, legacy)
            == ConfigRoot::KimiCode,
        !named && legacy.is_dir && legacy.has_sessions && !(current.is_dir && current.has_sessions)
            ==> root_choice(named, current, legacy) == ConfigRoot::Legacy,
        !named && legacy.is_dir && legacy.has_sessions && current.is_dir && current.has_sessions
            ==> (root_choice(named, current, legacy) == ConfigRoot::Legacy <==> legacy.has_index
            && !current.has_index),
        !named ==> root_choice(named, current, legacy) != ConfigRoot::Named,
{
}

proof fn lemma_last_component(parts: Seq<Seq<char>>, name: Seq<char>)
    ensures
        name.len() > 0 && name != "."@ ==> last_component(parts.push(name)) == Some(name),
        name.len() == 0 || name == "."@ ==> last_component(parts.push(name)) == last_component(
            parts,
        ),
{
    assert(parts.push(name).drop_last() =~= parts);
}

/// A session that its row does not name is named after its directory: the last
/// part of the path that is neither empty nor a dot, unless that leads upwards.
pub proof fn law_session_is_named_after_its_directory(
    doc: JsonTree,
    dir: Seq<char>,
    name: Seq<char>,
)
    requires
        is_free_of(name, '/'),
        name.len() > 0,
        name != "."@,
        name != ".."@,
    ensures
        file_name(name) == Some(name),
        file_name(dir + seq!['/'] + name) == Some(name),
        file_name(dir.push('/')) == file_name(dir),
        file_name(dir + seq!['/'] + ".."@) is None,
        doc.get_str("sessionDir"@) == Some(dir + seq!['/'] + name) && doc.get_str(
            "sessionId"@,
        ) is None ==> entry_in(doc)->0.session_id == name,
{
    reveal_strlit(".");
    reveal_strlit("..");
    assert("."@.len() == 1 && ".."@.len() == 2);
    lemma_last_part(dir, '/', name);
    lemma_last_component(split_on(dir, '/'), name);
    law_text_is_split_at_separators(name, '/', Seq::empty());
    lemma_last_component(Seq::empty(), name);
    assert(Seq::empty().push(name) =~= seq![name]);
    let none = Seq::<char>::empty();
    assert(is_free_of(none, '/'));
    lemma_last_part(dir, '/', none);
    lemma_last_component(split_on(dir, '/'), none);
    assert(dir + seq!['/'] + none =~= dir.push('/'));
    assert(is_free_of(".."@, '/')) by {
        assert(".."@[0] == '.' && ".."@[1] == '.');
    }
    lemma_last_part(dir, '/', ".."@);
    lemma_last_component(split_on(dir, '/'), ".."@);
}

} // verus!
