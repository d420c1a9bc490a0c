//! The claims that running Pi processes leave about their sessions.
use crate::json::json_text;
use crate::json::parse_json;
use crate::json::Json;
use crate::json::JsonTree;
use crate::model::opt_string;
use crate::process::ProcInfo;
use crate::text::chars_of;
use crate::text::seqs;
use crate::text::split_chars;
use crate::text::split_on;
use crate::text::string_of;
use crate::text::text_eq;
use std::collections::HashMap;
use vstd::prelude::*;

verus! {

broadcast use vstd::std_specs::hash::group_hash_axioms;

/// The claim of a process that it runs a session.
#[derive(Debug)]
pub struct Sidecar {
    pub pid: u32,
    /// When the process started, in clock ticks.
    pub proc_start: Option<u64>,
    pub agent: String,
    pub version: Option<String>,
    pub session_id: String,
    pub session_file: String,
    pub cwd: String,
    pub started_at: u64,
    pub context_window: Option<u64>,
    /// The percentage of the context window in use, by the bit pattern of its
    /// double-precision value.
    pub context_percent: Option<u64>,
    pub model: Option<String>,
    pub title: Option<String>,
}

#[verifier::ext_equal]
pub struct SidecarView {
    pub pid: u32,
    pub proc_start: Option<u64>,
    pub agent: Seq<char>,
    pub version: Option<Seq<char>>,
    pub session_id: Seq<char>,
    pub session_file: Seq<char>,
    pub cwd: Seq<char>,
    pub started_at: u64,
    pub context_window: Option<u64>,
    pub context_percent: Option<u64>,
    pub model: Option<Seq<char>>,
    pub title: Option<Seq<char>>,
}

impl View for Sidecar {
    type V = SidecarView;

    open spec fn view(&self) -> SidecarView {
        SidecarView {
            pid: self.pid,
            proc_start: self.proc_start,
            agent: self.agent@,
            version: opt_string(self.version),
            session_id: self.session_id@,
            session_file: self.session_file@,
            cwd: self.cwd@,
            started_at: self.started_at,
            context_window: self.context_window,
            context_percent: self.context_percent,
            model: opt_string(self.model),
            title: opt_string(self.title),
        }
    }
}

/// What an optional claim stands for.
pub open spec fn opt_sidecar(s: Option<Sidecar>) -> Option<SidecarView> {
    match s {
        Some(x) => Some(x@),
        None => None,
    }
}

/// What the claims of a vector stand for.
pub open spec fn claims(v: Seq<Sidecar>) -> Seq<SidecarView> {
    v.map_values(|x: Sidecar| x@)
}

/// The number where it is a process number, else 0.
pub open spec fn pid_or_zero(n: Option<u64>) -> u32 {
    match n {
        Some(p) => if p <= u32::MAX {
            p as u32
        } else {
            0
        },
        None => 0,
    }
}

/// The claim that a document makes. It must name the session, its file and its
/// working directory.
pub open spec fn sidecar_in(doc: JsonTree) -> Option<SidecarView> {
    match (doc.get_str("sessionId"@), doc.get_str("cwd"@), doc.get_str("sessionFile"@)) {
        (Some(session_id), Some(cwd), Some(session_file)) => Some(
            SidecarView {
                pid: pid_or_zero(doc.get_u64("pid"@)),
                proc_start: doc.get_u64("procStart"@),
                agent: match doc.get_str("agent"@) {
                    Some(a) => a,
                    None => "pi"@,
                },
                version: doc.get_str("version"@),
                session_id,
                session_file,
                cwd,
                started_at: match doc.get_u64("startedAt"@) {
                    Some(ms) => ms,
                    None => 0,
                },
                context_window: doc.get_u64("contextWindow"@),
                context_percent: match doc.get("contextPercent"@) {
                    Some(v) => v.as_bits(),
                    None => None,
                },
                model: doc.get_str("model"@),
                title: doc.get_str("title"@),
            },
        ),
        _ => None,
    }
}

/// A string of its own.
fn owned(s: Option<&str>) -> (r: Option<String>)
    ensures
        opt_string(r) == crate::json::opt_chars(s),
{
    match s {
        Some(t) => Some(t.to_owned()),
        None => None,
    }
}

/// The claim that a document makes.
pub fn sidecar_of(doc: &Json) -> (r: Option<Sidecar>)
    ensures
        opt_sidecar(r) == sidecar_in(doc@),
{
    match (doc.get_str("sessionId"), doc.get_str("cwd"), doc.get_str("sessionFile")) {
        (Some(session_id), Some(cwd), Some(session_file)) => {
            let pid = match doc.get_u64("pid") {
                Some(p) => if p <= 0xffff_ffff {
                    p as u32
                } else {
                    0
                },
                None => 0,
            };
            let sidecar = Sidecar {
                pid,
                proc_start: doc.get_u64("procStart"),
                agent: match doc.get_str("agent") {
                    Some(a) => a.to_owned(),
                    None => "pi".to_owned(),
                },
                version: owned(doc.get_str("version")),
                session_id: session_id.to_owned(),
                session_file: session_file.to_owned(),
                cwd: cwd.to_owned(),
                started_at: match doc.get_u64("startedAt") {
                    Some(ms) => ms,
                    None => 0,
                },
                context_window: doc.get_u64("contextWindow"),
                context_percent: match doc.get("contextPercent") {
                    Some(v) => v.as_bits(),
                    None => None,
                },
                model: owned(doc.get_str("model")),
                title: owned(doc.get_str("title")),
            };
            assert(sidecar@ =~= sidecar_in(doc@)->0);
            Some(sidecar)
        },
        _ => None,
    }
}

/// Whether a file name has the given extension.
pub open spec fn has_extension(name: Seq<char>, extension: Seq<char>) -> bool {
    let parts = split_on(name, '.');
    &&& parts.len() >= 2
    &&& parts.last() == extension
    &&& !(parts.len() == 2 && parts[0].len() == 0)
}

/// Whether a file name has the given extension.
pub fn has_file_extension(name: &str, extension: &str) -> (r: bool)
    ensures
        r == has_extension(name@, extension@),
{
    let parts = split_chars(chars_of(name).as_slice(), '.');
    let n = parts.len();
    assert(seqs(parts@) == split_on(name@, '.'));
    if n < 2 {
        return false;
    }
    assert(split_on(name@, '.').last() == parts@[n - 1]@);
    assert(split_on(name@, '.')[0] == parts@[0]@);
    text_eq(string_of(parts[n - 1].as_slice()).as_str(), extension) && !(n == 2
        && parts[0].len() == 0)
}

/// One file among the claims.
#[derive(Debug)]
pub struct ClaimFile {
    pub name: String,
    /// Its text, where it can be read.
    pub text: Option<String>,
}

/// The claim that a file makes.
pub open spec fn file_claim(file: ClaimFile) -> Option<SidecarView> {
    if has_extension(file.name@, "json"@) {
        match opt_string(file.text) {
            Some(text) => match json_text(text) {
                Some(doc) => sidecar_in(doc),
                None => None,
            },
            None => None,
        }
    } else {
        None
    }
}

/// The claims that the files make.
pub open spec fn file_claims(files: Seq<ClaimFile>) -> Seq<SidecarView>
    decreases files.len(),
{
    if files.len() == 0 {
        Seq::empty()
    } else {
        let rest = file_claims(files.drop_last());
        match file_claim(files.last()) {
            Some(s) => rest.push(s),
            None => rest,
        }
    }
}

/// The claim that a file makes.
fn claim_of(file: &ClaimFile) -> (r: Option<Sidecar>)
    ensures
        opt_sidecar(r) == file_claim(*file),
{
    if has_file_extension(file.name.as_str(), "json") {
        match &file.text {
            Some(text) => match parse_json(text.as_str()) {
                Some(doc) => sidecar_of(&doc),
                None => None,
            },
            None => None,
        }
    } else {
        None
    }
}

/// The claims that the files make; a file that makes none is passed over.
pub fn read_active_sidecars(files: &Vec<ClaimFile>) -> (r: Vec<Sidecar>)
    ensures
        claims(r@) == file_claims(files@),
{
    let mut out: Vec<Sidecar> = Vec::new();
    let mut i: usize = 0;
    assert(files@.take(0) =~= Seq::empty());
    assert(claims(out@) =~= file_claims(files@.take(0)));
    while i < files.len()
        invariant
            i <= files@.len(),
            claims(out@) == file_claims(files@.take(i as int)),
        decreases files@.len() - i,
    {
        let ghost before = claims(out@);
        assert(files@.take(i + 1).drop_last() =~= files@.take(i as int));
        assert(files@.take(i + 1).last() == files@[i as int]);
        if let Some(s) = claim_of(&files[i]) {
            out.push(s);
            assert(claims(out@) =~= before.push(s@));
        }
        i += 1;
    }
    assert(files@.take(i as int) =~= files@);
    out
}

/// Whether a claim holds: the process is there and, where both say when it
/// started, it is the one that made the claim and not a later one with the
/// same number.
pub open spec fn holds(s: Sidecar, info: Map<u32, ProcInfo>) -> bool {
    &&& info.contains_key(s.pid)
    &&& match s.proc_start {
        Some(start) => start > 0 && info[s.pid].start_ticks > 0 ==> info[s.pid].start_ticks
            == start,
        None => true,
    }
}

/// Whether a claim holds.
pub fn verify_sidecar(sc: &Sidecar, process_info: &HashMap<u32, ProcInfo>) -> (r: bool)
    ensures
        r == holds(*sc, process_info@),
{
    match process_info.get(&sc.pid) {
        Some(p) => match sc.proc_start {
            Some(start) => !(start > 0 && p.start_ticks > 0 && p.start_ticks != start),
            None => true,
        },
        None => false,
    }
}

} // verus!
