//! The collector of Pi sessions.
//!
//! A collector is asked in steps: which claims are to be shown and which to be
//! dropped ([`PiCollector::plan_sidecars`]), which transcripts without a claim
//! are to be shown ([`PiCollector::plan_transcripts`]), and, once the caller
//! has read the transcripts, for the report
//! ([`PiCollector::collect_sessions`]).
use crate::cache::resumed;
use crate::cache::CacheView;
use crate::cache::LogFile;
use crate::cache::SessionCache;
use crate::caches::known;
use crate::caches::SessionCaches;
use crate::model::copy_chats;
use crate::model::copy_counts;
use crate::model::copy_files;
use crate::model::copy_tools;
use crate::model::session_views;
use crate::model::AgentSession;
use crate::model::ChildProcess;
use crate::model::ContextPercent;
use crate::model::SessionStatus;
use crate::model::SessionView;
use crate::order::is_stable_sorting;
use crate::pi::discovery::HeaderView;
use crate::pi::discovery::TranscriptHeader;
use crate::pi::sidecar::holds;
use crate::pi::sidecar::verify_sidecar;
use crate::pi::sidecar::Sidecar;
use crate::pi::sidecar::SidecarView;
use crate::pi::transcript::Transcript;
use crate::policy::HostPolicy;
use crate::process::active_below;
use crate::process::agent_pids_outside;
use crate::process::ancestors;
use crate::process::binary_name;
use crate::process::binary_of;
use crate::process::children_view;
use crate::process::collect_children;
use crate::process::has_active_descendant;
use crate::process::is_agent;
use crate::process::project_name_of;
use crate::process::project_of;
use crate::process::CommandFilter;
use crate::process::ProcInfo;
use crate::process::SharedProcessData;
use crate::report::finish_report;
use crate::report::is_recent;
use crate::report::is_report;
use crate::report::is_recently_active;
use crate::report::memory_mb;
use crate::report::memory_mb_of;
use crate::report::shown_tasks;
use crate::report::tasks_of;
use crate::report::ACTIVE_LOAD;
use crate::report::SESSION_FRESH_SECS;
use crate::tailing::look;
use crate::tailing::look_fits;
use crate::tailing::looked;
use crate::text::contains_string;
use crate::text::strs;
use crate::text::text_eq;
use std::collections::HashMap;
use vstd::prelude::*;
use vstd::string::StringExecFns;

verus! {

broadcast use vstd::std_specs::hash::group_hash_axioms;

/// The command lines of Pi and of agents built on it. A script that an
/// interpreter runs is not told by its name.
pub struct PiCommand {

}

impl CommandFilter for PiCommand {
    open spec fn wants(cmd: Seq<char>) -> bool {
        let name = binary_name(cmd);
        ||| name == "pi"@
        ||| name == "my-pi-agent"@
        ||| name == "pi-coding-agent"@
        ||| name == "my-pi-agent.exe"@
    }

    fn wants_command(cmd: &str) -> (r: bool) {
        let base = binary_of(cmd);
        let name = base.as_str();
        text_eq(name, "pi") || text_eq(name, "my-pi-agent") || text_eq(name, "pi-coding-agent")
            || text_eq(name, "my-pi-agent.exe")
    }
}

/// Whether `pid` is a Pi process that is not below `self_pid`.
pub open spec fn is_pi_process(info: Map<u32, ProcInfo>, self_pid: u32, pid: u32) -> bool {
    is_agent::<PiCommand>(info, pid) && !ancestors(info, pid).contains(self_pid)
}

/// A claim and what its transcript says.
#[derive(Debug)]
pub struct KnownSidecar {
    pub sidecar: Sidecar,
    /// How many seconds ago its transcript was changed, or the largest number
    /// where that is not known.
    pub transcript_age_secs: u64,
    /// Its transcript, where there is one and it was read.
    pub log: Option<LogFile>,
}

/// A claim that is to be shown.
#[derive(Clone, Copy, PartialEq, Eq, Structural, Debug)]
pub struct PlannedSidecar {
    /// Its place among the claims.
    pub index: usize,
    /// Whether it holds.
    pub verified: bool,
}

/// Whether the claim is shown: it holds, or its transcript was changed a short
/// while ago.
pub open spec fn is_shown_claim(claim: KnownSidecar, info: Map<u32, ProcInfo>) -> bool {
    holds(claim.sidecar, info) || claim.transcript_age_secs < SESSION_FRESH_SECS
}

/// Whether the claim is dropped: its process is gone, and its transcript has
/// not changed for a while.
pub open spec fn is_dropped_claim(claim: KnownSidecar, info: Map<u32, ProcInfo>) -> bool {
    !info.contains_key(claim.sidecar.pid) && claim.transcript_age_secs >= SESSION_FRESH_SECS
}

/// Those of the first `n` claims that are shown.
pub open spec fn shown_claims(
    claims: Seq<KnownSidecar>,
    info: Map<u32, ProcInfo>,
    n: nat,
) -> Seq<PlannedSidecar>
    decreases n,
{
    if n == 0 {
        Seq::empty()
    } else {
        let i = n - 1;
        let rest = shown_claims(claims, info, i as nat);
        if is_shown_claim(claims[i], info) {
            rest.push(
                PlannedSidecar { index: i as usize, verified: holds(claims[i].sidecar, info) },
            )
        } else {
            rest
        }
    }
}

/// The processes of those of the first `n` claims that are dropped.
pub open spec fn dropped_claims(
    claims: Seq<KnownSidecar>,
    info: Map<u32, ProcInfo>,
    n: nat,
) -> Seq<u32>
    decreases n,
{
    if n == 0 {
        Seq::empty()
    } else {
        let i = n - 1;
        let rest = dropped_claims(claims, info, i as nat);
        if is_dropped_claim(claims[i], info) {
            rest.push(claims[i].sidecar.pid)
        } else {
            rest
        }
    }
}

/// A transcript.
#[derive(Debug)]
pub struct KnownTranscript {
    pub header: TranscriptHeader,
    /// How many seconds ago it was changed, or the largest number where that
    /// is not known.
    pub age_secs: u64,
    /// Its bytes, where they were read.
    pub log: Option<LogFile>,
}

/// A transcript without a claim that is to be shown.
#[derive(Clone, Copy, PartialEq, Eq, Structural, Debug)]
pub struct PlannedTranscript {
    /// Its place among the transcripts.
    pub index: usize,
    /// The process it belongs to: 0, as only a claim names one.
    pub pid: u32,
    /// Whether nobody confirms what the session is doing.
    pub unknown_status: bool,
}

/// Whether one of the processes works in `dir`.
pub open spec fn is_occupied(pids: Seq<u32>, cwds: Map<u32, String>, dir: Seq<char>) -> bool {
    exists|k: int|
        0 <= k < pids.len() && cwds.contains_key(#[trigger] pids[k]) && cwds[pids[k]]@ == dir
}

/// Whether a claim, be it true or not, names the session.
pub open spec fn is_claimed(claims: Seq<KnownSidecar>, session_id: Seq<char>) -> bool {
    exists|k: int|
        0 <= k < claims.len() && (#[trigger] claims[k]).sidecar.session_id@ == session_id
}

/// Whether a claim that holds names the directory.
pub open spec fn is_covered(
    claims: Seq<KnownSidecar>,
    info: Map<u32, ProcInfo>,
    dir: Seq<char>,
) -> bool {
    exists|k: int|
        0 <= k < claims.len() && holds((#[trigger] claims[k]).sidecar, info)
            && claims[k].sidecar.cwd@ == dir
}

/// Whether no claim speaks for the transcript.
pub open spec fn is_unclaimed(
    claims: Seq<KnownSidecar>,
    info: Map<u32, ProcInfo>,
    t: KnownTranscript,
) -> bool {
    !is_claimed(claims, t.header.session_id@) && !is_covered(claims, info, t.header.cwd@)
}

/// Whether a process works in the directory of the transcript.
pub open spec fn is_attributed(
    pids: Seq<u32>,
    cwds: Map<u32, String>,
    t: KnownTranscript,
) -> bool {
    t.header.cwd@.len() > 0 && is_occupied(pids, cwds, t.header.cwd@)
}

/// Whether the transcript at `i` is the first of those in its directory for
/// which no claim speaks.
pub open spec fn is_first_in_dir(
    transcripts: Seq<KnownTranscript>,
    claims: Seq<KnownSidecar>,
    info: Map<u32, ProcInfo>,
    i: int,
) -> bool {
    forall|j: int|
        0 <= j < i && (#[trigger] transcripts[j]).header.cwd@ == transcripts[i].header.cwd@
            ==> !is_unclaimed(claims, info, transcripts[j])
}

/// Whether the transcript at `i` is shown: no claim speaks for it, and it is
/// the newest in a directory where a process works or, where none does, was
/// changed a short while ago.
pub open spec fn is_shown_transcript(
    transcripts: Seq<KnownTranscript>,
    claims: Seq<KnownSidecar>,
    pids: Seq<u32>,
    info: Map<u32, ProcInfo>,
    cwds: Map<u32, String>,
    i: int,
) -> bool {
    &&& is_unclaimed(claims, info, transcripts[i])
    &&& if is_attributed(pids, cwds, transcripts[i]) {
        is_first_in_dir(transcripts, claims, info, i)
    } else {
        transcripts[i].age_secs < SESSION_FRESH_SECS
    }
}

/// Those of the first `n` transcripts that are shown. A process in the same
/// directory shows which of them may still run; it need not be the session's
/// own, nor does it tell what the session is doing.
pub open spec fn shown_transcripts(
    transcripts: Seq<KnownTranscript>,
    claims: Seq<KnownSidecar>,
    pids: Seq<u32>,
    info: Map<u32, ProcInfo>,
    cwds: Map<u32, String>,
    n: nat,
) -> Seq<PlannedTranscript>
    decreases n,
{
    if n == 0 {
        Seq::empty()
    } else {
        let i = n - 1;
        let rest = shown_transcripts(transcripts, claims, pids, info, cwds, i as nat);
        if is_shown_transcript(transcripts, claims, pids, info, cwds, i) {
            rest.push(
                PlannedTranscript {
                    index: i as usize,
                    pid: 0,
                    unknown_status: true,
                },
            )
        } else {
            rest
        }
    }
}

/// What a session is doing. Where nobody confirms that its process runs it,
/// that is not known. A task is shown until the next one, so it counts only
/// while the session is active.
pub open spec fn pi_status(
    c: CacheView,
    pid: u32,
    verified: bool,
    shared: SharedProcessData,
    now_ms: u64,
) -> SessionStatus {
    if !verified {
        SessionStatus::Unknown
    } else if active_below(pid, shared.children_map@, shared.process_info@, ACTIVE_LOAD) {
        SessionStatus::Executing
    } else if !is_recent(c.last_activity, now_ms) {
        SessionStatus::Waiting
    } else if c.current_task.len() > 0 {
        SessionStatus::Executing
    } else {
        SessionStatus::Thinking
    }
}

/// The agent and its version, where they are known.
pub open spec fn combined_version(agent: Seq<char>, version: Option<Seq<char>>) -> Seq<char> {
    match version {
        Some(v) => if agent.len() > 0 && v.len() > 0 {
            agent + seq![' '] + v
        } else if agent.len() > 0 {
            agent
        } else {
            v
        },
        None => agent,
    }
}

/// What is shown of a session of which `c` is known; the rest is what no
/// transcript says.
pub open spec fn pi_session(
    c: CacheView,
    pid: u32,
    shared: SharedProcessData,
    rest: PiReport,
) -> SessionView {
    SessionView {
        agent_cli: "pi"@,
        pid,
        session_id: rest.session_id,
        cwd: rest.cwd,
        project_name: project_of(rest.cwd),
        started_at: rest.started_at,
        status: rest.status,
        model: rest.model,
        effort: c.effort,
        context_percent: rest.context_percent,
        total_input_tokens: c.total_input,
        total_output_tokens: c.total_output,
        total_cache_read: c.total_cache_read,
        total_cache_create: c.total_cache_create,
        turn_count: c.turn_count,
        current_tasks: rest.current_tasks,
        mem_mb: memory_mb(shared.process_info@, pid),
        version: rest.version,
        git_branch: Seq::empty(),
        git_added: 0,
        git_modified: 0,
        token_history: c.token_history,
        context_history: c.context_history,
        compaction_count: c.compaction_count,
        context_window: rest.context_window,
        subagents: Seq::empty(),
        mem_file_count: 0,
        mem_line_count: 0,
        children: rest.children,
        initial_prompt: rest.initial_prompt,
        first_assistant_text: c.first_assistant_text,
        chat_messages: c.chat_messages,
        tool_calls: c.tool_calls,
        pending_since_ms: 0,
        thinking_since_ms: 0,
        file_accesses: c.file_accesses,
        config_root: rest.config_root,
    }
}

/// What is shown of a session and no transcript says.
#[verifier::ext_equal]
pub struct PiReport {
    pub session_id: Seq<char>,
    pub cwd: Seq<char>,
    pub started_at: u64,
    pub status: SessionStatus,
    pub model: Seq<char>,
    pub context_percent: ContextPercent,
    pub context_window: u64,
    pub current_tasks: Seq<Seq<char>>,
    pub version: Seq<char>,
    pub children: Seq<crate::model::ChildView>,
    pub initial_prompt: Seq<char>,
    pub config_root: Seq<char>,
}

/// What is shown of a session that a process claims.
pub open spec fn sidecar_session(
    c: CacheView,
    s: SidecarView,
    verified: bool,
    shared: SharedProcessData,
    now_ms: u64,
    config_root: Seq<char>,
) -> SessionView {
    let status = pi_status(c, s.pid, verified, shared, now_ms);
    pi_session(
        c,
        s.pid,
        shared,
        PiReport {
            session_id: s.session_id,
            cwd: s.cwd,
            started_at: s.started_at,
            status,
            model: if c.model.len() > 0 {
                c.model
            } else {
                crate::content::or_empty(s.model)
            },
            context_percent: match s.context_percent {
                Some(bits) => ContextPercent::Reported { bits },
                None => ContextPercent::NotKnown,
            },
            context_window: match s.context_window {
                Some(n) => n,
                None => 0,
            },
            current_tasks: shown_tasks(
                c.current_task,
                status,
                if verified {
                    "thinking..."@
                } else {
                    "unknown status"@
                },
            ),
            version: combined_version(s.agent, s.version),
            children: children_view(s.pid, shared),
            initial_prompt: match s.title {
                Some(t) => t,
                None => c.initial_prompt,
            },
            config_root,
        },
    )
}

/// What is shown of a session that only its transcript tells of.
pub open spec fn transcript_session(
    c: CacheView,
    h: HeaderView,
    pid: u32,
    unknown_status: bool,
    shared: SharedProcessData,
    now_ms: u64,
    config_root: Seq<char>,
) -> SessionView {
    let status = if unknown_status {
        SessionStatus::Unknown
    } else {
        pi_status(c, pid, pid != 0, shared, now_ms)
    };
    pi_session(
        c,
        pid,
        shared,
        PiReport {
            session_id: h.session_id,
            cwd: h.cwd,
            started_at: h.started_at,
            status,
            model: c.model,
            context_percent: ContextPercent::NotKnown,
            context_window: 0,
            current_tasks: shown_tasks(
                c.current_task,
                status,
                if unknown_status {
                    "unknown status"@
                } else {
                    "thinking..."@
                },
            ),
            version: Seq::empty(),
            children: if pid != 0 {
                children_view(pid, shared)
            } else {
                Seq::empty()
            },
            initial_prompt: c.initial_prompt,
            config_root,
        },
    )
}

/// What is known and what is shown once a session is looked at: where it
/// cannot be loaded it is not shown, and forgotten.
pub open spec fn with_loaded<P: HostPolicy>(
    policy: P,
    state: (Map<Seq<char>, CacheView>, Seq<SessionView>),
    id: Seq<char>,
    log: Option<LogFile>,
    show: spec_fn(CacheView) -> SessionView,
) -> (Map<Seq<char>, CacheView>, Seq<SessionView>) {
    let before = known(state.0, id);
    if look_fits::<P, Transcript>(policy, before, log) {
        let after = looked::<P, Transcript>(policy, before, log);
        (state.0.insert(id, after), state.1.push(show(after)))
    } else {
        (state.0.remove(id), state.1)
    }
}

/// What is known and what is shown once the claims of the plan are loaded, one
/// after another.
pub open spec fn loaded_claims<P: HostPolicy>(
    policy: P,
    start: (Map<Seq<char>, CacheView>, Seq<SessionView>),
    claims: Seq<KnownSidecar>,
    plan: Seq<PlannedSidecar>,
    shared: SharedProcessData,
    now_ms: u64,
    config_root: Seq<char>,
) -> (Map<Seq<char>, CacheView>, Seq<SessionView>)
    decreases plan.len(),
{
    if plan.len() == 0 {
        start
    } else {
        let p = plan.last();
        let claim = claims[p.index as int];
        with_loaded(
            policy,
            loaded_claims(policy, start, claims, plan.drop_last(), shared, now_ms, config_root),
            claim.sidecar.session_id@,
            claim.log,
            |c: CacheView|
                sidecar_session(c, claim.sidecar@, p.verified, shared, now_ms, config_root),
        )
    }
}

/// What is known and what is shown once the transcripts of the plan are
/// loaded, one after another.
pub open spec fn loaded_transcripts<P: HostPolicy>(
    policy: P,
    start: (Map<Seq<char>, CacheView>, Seq<SessionView>),
    transcripts: Seq<KnownTranscript>,
    plan: Seq<PlannedTranscript>,
    shared: SharedProcessData,
    now_ms: u64,
    config_root: Seq<char>,
) -> (Map<Seq<char>, CacheView>, Seq<SessionView>)
    decreases plan.len(),
{
    if plan.len() == 0 {
        start
    } else {
        let p = plan.last();
        let t = transcripts[p.index as int];
        with_loaded(
            policy,
            loaded_transcripts(
                policy,
                start,
                transcripts,
                plan.drop_last(),
                shared,
                now_ms,
                config_root,
            ),
            t.header.session_id@,
            t.log,
            |c: CacheView|
                transcript_session(
                    c,
                    t.header@,
                    p.pid,
                    p.unknown_status,
                    shared,
                    now_ms,
                    config_root,
                ),
        )
    }
}

/// What is known and what is shown once all sessions are loaded: first those
/// that processes claim, then those of transcripts without a claim.
pub open spec fn loaded_sessions<P: HostPolicy>(
    policy: P,
    caches: Map<Seq<char>, CacheView>,
    claims: Seq<KnownSidecar>,
    transcripts: Seq<KnownTranscript>,
    pids: Seq<u32>,
    cwds: Map<u32, String>,
    shared: SharedProcessData,
    now_ms: u64,
    config_root: Seq<char>,
) -> (Map<Seq<char>, CacheView>, Seq<SessionView>) {
    let info = shared.process_info@;
    loaded_transcripts(
        policy,
        loaded_claims(
            policy,
            (caches, Seq::empty()),
            claims,
            shown_claims(claims, info, claims.len()),
            shared,
            now_ms,
            config_root,
        ),
        transcripts,
        shown_transcripts(transcripts, claims, pids, info, cwds, transcripts.len()),
        shared,
        now_ms,
        config_root,
    )
}

/// Whether one of the processes works in `dir`.
fn check_occupied(pids: &Vec<u32>, cwds: &HashMap<u32, String>, dir: &str) -> (r: bool)
    ensures
        r == is_occupied(pids@, cwds@, dir@),
{
    let mut i: usize = 0;
    while i < pids.len()
        invariant
            i <= pids@.len(),
            forall|k: int|
                0 <= k < i && cwds@.contains_key(#[trigger] pids@[k]) ==> cwds@[pids@[k]]@ != dir@,
        decreases pids@.len() - i,
    {
        if let Some(cwd) = cwds.get(&pids[i]) {
            if text_eq(cwd.as_str(), dir) {
                assert(cwds@.contains_key(pids@[i as int]));
                return true;
            }
        }
        i += 1;
    }
    false
}

/// Whether no claim speaks for the transcript.
fn check_unclaimed(
    sidecars: &Vec<KnownSidecar>,
    process_info: &HashMap<u32, ProcInfo>,
    t: &KnownTranscript,
) -> (r: bool)
    ensures
        r == is_unclaimed(sidecars@, process_info@, *t),
{
    let ghost info = process_info@;
    let mut k: usize = 0;
    while k < sidecars.len()
        invariant
            k <= sidecars@.len(),
            info == process_info@,
            forall|m: int|
                0 <= m < k ==> (#[trigger] sidecars@[m]).sidecar.session_id@
                    != t.header.session_id@ && !(holds(sidecars@[m].sidecar, info)
                    && sidecars@[m].sidecar.cwd@ == t.header.cwd@),
        decreases sidecars@.len() - k,
    {
        let sc = &sidecars[k].sidecar;
        if text_eq(sc.session_id.as_str(), t.header.session_id.as_str()) {
            assert(is_claimed(sidecars@, t.header.session_id@)) by {
                assert(sidecars@[k as int].sidecar.session_id@ == t.header.session_id@);
            }
            return false;
        }
        if text_eq(sc.cwd.as_str(), t.header.cwd.as_str()) && verify_sidecar(sc, process_info) {
            assert(is_covered(sidecars@, info, t.header.cwd@)) by {
                assert(holds(sidecars@[k as int].sidecar, info));
            }
            return false;
        }
        k += 1;
    }
    true
}

/// The agent and its version, where they are known.
pub fn combine_version(agent: &str, version: Option<&str>) -> (r: String)
    ensures
        r@ == combined_version(agent@, crate::json::opt_chars(version)),
{
    match version {
        Some(v) => if !agent.is_empty() && !v.is_empty() {
            let mut r = agent.to_owned();
            r.push(' ');
            r.append(v);
            assert(r@ =~= agent@ + seq![' '] + v@);
            r
        } else if !agent.is_empty() {
            agent.to_owned()
        } else {
            v.to_owned()
        },
        None => agent.to_owned(),
    }
}

/// What a session is doing.
pub fn derive_status(
    pid: u32,
    verified: bool,
    cache: &SessionCache,
    shared: &SharedProcessData,
    now_ms: u64,
) -> (r: SessionStatus)
    ensures
        r == pi_status(cache@, pid, verified, *shared, now_ms),
{
    if !verified {
        return SessionStatus::Unknown;
    }
    let fresh = is_recently_active(cache.last_activity, now_ms);
    if has_active_descendant(pid, &shared.children_map, &shared.process_info, ACTIVE_LOAD) {
        SessionStatus::Executing
    } else if fresh && !cache.current_task.as_str().is_empty() {
        SessionStatus::Executing
    } else if fresh {
        SessionStatus::Thinking
    } else {
        SessionStatus::Waiting
    }
}

/// Collects the sessions of Pi.
pub struct PiCollector {
    /// The directory of the sessions, as it is shown.
    pub sessions_root: String,
    /// What is known of the sessions.
    pub cache: SessionCaches,
}

impl PiCollector {
    /// A collector that knows of no session yet.
    pub fn new(sessions_root: String) -> (r: PiCollector)
        ensures
            r.sessions_root@ == sessions_root@,
            r.cache@ == Map::<Seq<char>, CacheView>::empty(),
    {
        PiCollector { sessions_root, cache: SessionCaches::new() }
    }

    /// The Pi processes that are not below `self_pid`.
    pub fn find_pi_pids(process_info: &HashMap<u32, ProcInfo>, self_pid: u32) -> (r: Vec<u32>)
        ensures
            r@.no_duplicates(),
            forall|pid: u32| #[trigger]
                r@.contains(pid) <==> is_pi_process(process_info@, self_pid, pid),
    {
        agent_pids_outside::<PiCommand>(process_info, self_pid)
    }

    /// The claims to show, and the processes of the claims to drop.
    pub fn plan_sidecars(
        sidecars: &Vec<KnownSidecar>,
        process_info: &HashMap<u32, ProcInfo>,
    ) -> (r: (Vec<PlannedSidecar>, Vec<u32>))
        ensures
            r.0@ == shown_claims(sidecars@, process_info@, sidecars@.len()),
            r.1@ == dropped_claims(sidecars@, process_info@, sidecars@.len()),
    {
        let ghost info = process_info@;
        let mut shown: Vec<PlannedSidecar> = Vec::new();
        let mut dropped: Vec<u32> = Vec::new();
        let mut i: usize = 0;
        while i < sidecars.len()
            invariant
                i <= sidecars@.len(),
                info == process_info@,
                shown@ == shown_claims(sidecars@, info, i as nat),
                dropped@ == dropped_claims(sidecars@, info, i as nat),
            decreases sidecars@.len() - i,
        {
            let sc = &sidecars[i].sidecar;
            let verified = verify_sidecar(sc, process_info);
            if verified {
                shown.push(PlannedSidecar { index: i, verified: true });
            } else if sidecars[i].transcript_age_secs < SESSION_FRESH_SECS {
                shown.push(PlannedSidecar { index: i, verified: false });
            } else if !process_info.contains_key(&sc.pid) {
                dropped.push(sc.pid);
            }
            i += 1;
        }
        (shown, dropped)
    }

    /// The transcripts without a claim to show, the newest given first, with
    /// the processes in their directories.
    pub fn plan_transcripts(
        transcripts: &Vec<KnownTranscript>,
        sidecars: &Vec<KnownSidecar>,
        pi_pids: &Vec<u32>,
        process_info: &HashMap<u32, ProcInfo>,
        cwds: &HashMap<u32, String>,
    ) -> (r: Vec<PlannedTranscript>)
        ensures
            r@ == shown_transcripts(
                transcripts@,
                sidecars@,
                pi_pids@,
                process_info@,
                cwds@,
                transcripts@.len(),
            ),
    {
        let ghost info = process_info@;
        let ghost claims = sidecars@;
        let mut out: Vec<PlannedTranscript> = Vec::new();
        let mut attributed_dirs: Vec<String> = Vec::new();
        let mut i: usize = 0;
        while i < transcripts.len()
            invariant
                i <= transcripts@.len(),
                info == process_info@,
                claims == sidecars@,
                out@ == shown_transcripts(
                    transcripts@,
                    claims,
                    pi_pids@,
                    info,
                    cwds@,
                    i as nat,
                ),
                forall|dir: Seq<char>| #[trigger]
                    strs(attributed_dirs@).contains(dir) ==> exists|j: int|
                        0 <= j < i && (#[trigger] transcripts@[j]).header.cwd@ == dir
                            && is_unclaimed(claims, info, transcripts@[j]),
                forall|j: int|
                    0 <= j < i && is_unclaimed(claims, info, #[trigger] transcripts@[j])
                        && is_attributed(pi_pids@, cwds@, transcripts@[j]) ==> strs(
                        attributed_dirs@,
                    ).contains(transcripts@[j].header.cwd@),
            decreases transcripts@.len() - i,
        {
            let t = &transcripts[i];
            let dir = t.header.cwd.as_str();
            let ghost seen = strs(attributed_dirs@);
            if check_unclaimed(sidecars, process_info, t) {
                if !dir.is_empty() && check_occupied(pi_pids, cwds, dir) {
                    if !contains_string(&attributed_dirs, dir) {
                        assert(is_first_in_dir(transcripts@, claims, info, i as int)) by {
                            assert forall|j: int|
                                0 <= j < i && (#[trigger] transcripts@[j]).header.cwd@
                                    == dir@ implies !is_unclaimed(
                                claims,
                                info,
                                transcripts@[j],
                            ) by {
                                assert(is_attributed(pi_pids@, cwds@, transcripts@[j]));
                            }
                        }
                        attributed_dirs.push(dir.to_owned());
                        assert(strs(attributed_dirs@) =~= seen.push(dir@));
                        out.push(PlannedTranscript { index: i, pid: 0, unknown_status: true });
                    } else {
                        assert(!is_first_in_dir(transcripts@, claims, info, i as int));
                    }
                } else if t.age_secs < SESSION_FRESH_SECS {
                    out.push(PlannedTranscript { index: i, pid: 0, unknown_status: true });
                }
            }
            proof {
                let now = strs(attributed_dirs@);
                assert forall|x: Seq<char>| seen.contains(x) implies #[trigger] now.contains(
                    x,
                ) by {
                    let k = choose|k: int| 0 <= k < seen.len() && seen[k] == x;
                    assert(now[k] == x);
                }
                assert forall|x: Seq<char>| #[trigger] now.contains(x) implies exists|j: int|
                    0 <= j < i + 1 && (#[trigger] transcripts@[j]).header.cwd@ == x
                        && is_unclaimed(claims, info, transcripts@[j]) by {
                    if seen.contains(x) {
                        let j = choose|j: int|
                            0 <= j < i && (#[trigger] transcripts@[j]).header.cwd@ == x
                                && is_unclaimed(claims, info, transcripts@[j]);
                        assert(transcripts@[j].header.cwd@ == x);
                    } else {
                        let k = choose|k: int| 0 <= k < now.len() && now[k] == x;
                        if k < seen.len() {
                            assert(seen[k] == x);
                        }
                        assert(transcripts@[i as int].header.cwd@ == x);
                    }
                }
                assert forall|j: int|
                    0 <= j < i + 1 && is_unclaimed(claims, info, #[trigger] transcripts@[j])
                        && is_attributed(pi_pids@, cwds@, transcripts@[j]) implies now.contains(
                    transcripts@[j].header.cwd@,
                ) by {
                    if j < i {
                        assert(seen.contains(transcripts@[j].header.cwd@));
                    } else if !seen.contains(dir@) {
                        assert(now[seen.len() as int] == dir@);
                    }
                }
            }
            i += 1;
        }
        out
    }

    /// Where to go on reading the transcript of a session, by the file it is and the
    /// bytes it holds now.
    pub fn resume_offset(&self, session_id: &str, identity: (u64, u64), len: u64) -> (r: u64)
        ensures
            r == resumed(known(self.cache@, session_id@), identity, len).offset,
    {
        self.cache.resume_offset(session_id, identity, len)
    }

    /// What is shown of a session that a process claims, by the new part of
    /// its transcript, where it has one. There is no answer where the new part
    /// is not given or a count of it would outgrow its width; the session is
    /// then forgotten.
    pub fn load_session_from_sidecar<P: HostPolicy>(
        &mut self,
        policy: &P,
        sc: &Sidecar,
        verified: bool,
        log: &Option<LogFile>,
        shared: &SharedProcessData,
        now_ms: u64,
    ) -> (r: Option<AgentSession>)
        ensures
            final(self).sessions_root@ == old(self).sessions_root@,
            ({
                let before = known(old(self).cache@, sc.session_id@);
                let after = looked::<P, Transcript>(*policy, before, *log);
                match r {
                    Some(s) => {
                        &&& look_fits::<P, Transcript>(*policy, before, *log)
                        &&& s@ == sidecar_session(
                            after,
                            sc@,
                            verified,
                            *shared,
                            now_ms,
                            old(self).sessions_root@,
                        )
                        &&& final(self).cache@ == old(self).cache@.insert(sc.session_id@, after)
                    },
                    None => {
                        &&& !look_fits::<P, Transcript>(*policy, before, *log)
                        &&& final(self).cache@ == old(self).cache@.remove(sc.session_id@)
                    },
                }
            }),
    {
        let mut cache = self.cache.take(sc.session_id.as_str());
        if !look::<P, Transcript>(policy, &mut cache, log) {
            return None;
        }
        let ghost c = cache@;
        let status = derive_status(sc.pid, verified, &cache, shared, now_ms);
        let otherwise = if verified {
            "thinking..."
        } else {
            "unknown status"
        };
        let model = if !cache.model.as_str().is_empty() {
            cache.model.clone()
        } else {
            match &sc.model {
                Some(m) => m.clone(),
                None => String::new(),
            }
        };
        let version = match &sc.version {
            Some(v) => combine_version(sc.agent.as_str(), Some(v.as_str())),
            None => combine_version(sc.agent.as_str(), None),
        };
        let initial_prompt = match &sc.title {
            Some(t) => t.clone(),
            None => cache.initial_prompt.clone(),
        };
        let context_percent = match sc.context_percent {
            Some(bits) => ContextPercent::Reported { bits },
            None => ContextPercent::NotKnown,
        };
        let context_window: u64 = match sc.context_window {
            Some(n) => n,
            None => 0,
        };
        let s = AgentSession {
            agent_cli: "pi",
            pid: sc.pid,
            session_id: sc.session_id.clone(),
            cwd: sc.cwd.clone(),
            project_name: project_name_of(sc.cwd.as_str()),
            started_at: sc.started_at,
            status,
            model,
            effort: cache.effort.clone(),
            context_percent,
            total_input_tokens: cache.total_input,
            total_output_tokens: cache.total_output,
            total_cache_read: cache.total_cache_read,
            total_cache_create: cache.total_cache_create,
            turn_count: cache.turn_count,
            current_tasks: tasks_of(cache.current_task.as_str(), status, otherwise),
            mem_mb: memory_mb_of(&shared.process_info, sc.pid),
            version,
            git_branch: String::new(),
            git_added: 0,
            git_modified: 0,
            token_history: copy_counts(&cache.token_history),
            context_history: copy_counts(&cache.context_history),
            compaction_count: cache.compaction_count,
            context_window,
            subagents: Vec::new(),
            mem_file_count: 0,
            mem_line_count: 0,
            children: collect_children(sc.pid, shared),
            initial_prompt,
            first_assistant_text: cache.first_assistant_text.clone(),
            chat_messages: copy_chats(&cache.chat_messages),
            tool_calls: copy_tools(&cache.tool_calls),
            pending_since_ms: 0,
            thinking_since_ms: 0,
            file_accesses: copy_files(&cache.file_accesses),
            config_root: self.sessions_root.clone(),
        };
        assert(s@ =~= sidecar_session(
            c,
            sc@,
            verified,
            *shared,
            now_ms,
            self.sessions_root@,
        ));
        self.cache.put(sc.session_id.as_str(), cache);
        assert(self.cache@ =~= old(self).cache@.insert(sc.session_id@, c));
        Some(s)
    }

    /// What is shown of a session that only its transcript tells of, by the
    /// new part of the transcript, where it is there. There is no answer where
    /// the new part is not given or a count of it would outgrow its width; the
    /// session is then forgotten.
    pub fn load_session_from_transcript<P: HostPolicy>(
        &mut self,
        policy: &P,
        header: &TranscriptHeader,
        pid: u32,
        unknown_status: bool,
        log: &Option<LogFile>,
        shared: &SharedProcessData,
        now_ms: u64,
    ) -> (r: Option<AgentSession>)
        ensures
            final(self).sessions_root@ == old(self).sessions_root@,
            ({
                let id = header.session_id@;
                let before = known(old(self).cache@, id);
                let after = looked::<P, Transcript>(*policy, before, *log);
                match r {
                    Some(s) => {
                        &&& look_fits::<P, Transcript>(*policy, before, *log)
                        &&& s@ == transcript_session(
                            after,
                            header@,
                            pid,
                            unknown_status,
                            *shared,
                            now_ms,
                            old(self).sessions_root@,
                        )
                        &&& final(self).cache@ == old(self).cache@.insert(id, after)
                    },
                    None => {
                        &&& !look_fits::<P, Transcript>(*policy, before, *log)
                        &&& final(self).cache@ == old(self).cache@.remove(id)
                    },
                }
            }),
    {
        let mut cache = self.cache.take(header.session_id.as_str());
        if !look::<P, Transcript>(policy, &mut cache, log) {
            return None;
        }
        let ghost c = cache@;
        let status = if unknown_status {
            SessionStatus::Unknown
        } else {
            derive_status(pid, pid != 0, &cache, shared, now_ms)
        };
        let otherwise = if unknown_status {
            "unknown status"
        } else {
            "thinking..."
        };
        let mut children: Vec<ChildProcess> = Vec::new();
        assert(crate::model::kids(children@) =~= Seq::empty());
        if pid != 0 {
            children = collect_children(pid, shared);
        }
        let s = AgentSession {
            agent_cli: "pi",
            pid,
            session_id: header.session_id.clone(),
            cwd: header.cwd.clone(),
            project_name: project_name_of(header.cwd.as_str()),
            started_at: header.started_at,
            status,
            model: cache.model.clone(),
            effort: cache.effort.clone(),
            context_percent: ContextPercent::NotKnown,
            total_input_tokens: cache.total_input,
            total_output_tokens: cache.total_output,
            total_cache_read: cache.total_cache_read,
            total_cache_create: cache.total_cache_create,
            turn_count: cache.turn_count,
            current_tasks: tasks_of(cache.current_task.as_str(), status, otherwise),
            mem_mb: memory_mb_of(&shared.process_info, pid),
            version: String::new(),
            git_branch: String::new(),
            git_added: 0,
            git_modified: 0,
            token_history: copy_counts(&cache.token_history),
            context_history: copy_counts(&cache.context_history),
            compaction_count: cache.compaction_count,
            context_window: 0,
            subagents: Vec::new(),
            mem_file_count: 0,
            mem_line_count: 0,
            children,
            initial_prompt: cache.initial_prompt.clone(),
            first_assistant_text: cache.first_assistant_text.clone(),
            chat_messages: copy_chats(&cache.chat_messages),
            tool_calls: copy_tools(&cache.tool_calls),
            pending_since_ms: 0,
            thinking_since_ms: 0,
            file_accesses: copy_files(&cache.file_accesses),
            config_root: self.sessions_root.clone(),
        };
        assert(s@ =~= transcript_session(
            c,
            header@,
            pid,
            unknown_status,
            *shared,
            now_ms,
            self.sessions_root@,
        ));
        self.cache.put(header.session_id.as_str(), cache);
        assert(self.cache@ =~= old(self).cache@.insert(header.session_id@, c));
        Some(s)
    }

    /// Loads the claims of the plan, in its order, after the sessions that
    /// are loaded already.
    fn load_sidecars<P: HostPolicy>(
        &mut self,
        policy: &P,
        sidecars: &Vec<KnownSidecar>,
        plan: &Vec<PlannedSidecar>,
        shown: Vec<AgentSession>,
        shared: &SharedProcessData,
        now_ms: u64,
    ) -> (r: Vec<AgentSession>)
        requires
            forall|k: int|
                0 <= k < plan@.len() ==> (#[trigger] plan@[k]).index < sidecars@.len(),
        ensures
            final(self).sessions_root@ == old(self).sessions_root@,
            (final(self).cache@, session_views(r@)) == loaded_claims(
                *policy,
                (old(self).cache@, session_views(shown@)),
                sidecars@,
                plan@,
                *shared,
                now_ms,
                old(self).sessions_root@,
            ),
    {
        let ghost start = (self.cache@, session_views(shown@));
        let ghost root = self.sessions_root@;
        let mut out = shown;
        let mut k: usize = 0;
        assert(plan@.take(0) =~= Seq::empty());
        while k < plan.len()
            invariant
                k <= plan@.len(),
                forall|i: int|
                    0 <= i < plan@.len() ==> (#[trigger] plan@[i]).index < sidecars@.len(),
                self.sessions_root@ == root,
                (self.cache@, session_views(out@)) == loaded_claims(
                    *policy,
                    start,
                    sidecars@,
                    plan@.take(k as int),
                    *shared,
                    now_ms,
                    root,
                ),
            decreases plan@.len() - k,
        {
            let ghost before = session_views(out@);
            assert(plan@.take(k + 1).drop_last() =~= plan@.take(k as int));
            assert(plan@.take(k + 1).last() == plan@[k as int]);
            let planned = plan[k];
            assert(plan@[k as int].index < sidecars@.len());
            let claim = &sidecars[planned.index];
            if let Some(s) = self.load_session_from_sidecar(
                policy,
                &claim.sidecar,
                planned.verified,
                &claim.log,
                shared,
                now_ms,
            ) {
                out.push(s);
                assert(session_views(out@) =~= before.push(s@));
            }
            k += 1;
        }
        assert(plan@.take(k as int) =~= plan@);
        out
    }

    /// Loads the transcripts of the plan, in its order, after the sessions that
    /// are loaded already.
    fn load_transcripts<P: HostPolicy>(
        &mut self,
        policy: &P,
        transcripts: &Vec<KnownTranscript>,
        plan: &Vec<PlannedTranscript>,
        shown: Vec<AgentSession>,
        shared: &SharedProcessData,
        now_ms: u64,
    ) -> (r: Vec<AgentSession>)
        requires
            forall|k: int|
                0 <= k < plan@.len() ==> (#[trigger] plan@[k]).index < transcripts@.len(),
        ensures
            final(self).sessions_root@ == old(self).sessions_root@,
            (final(self).cache@, session_views(r@)) == loaded_transcripts(
                *policy,
                (old(self).cache@, session_views(shown@)),
                transcripts@,
                plan@,
                *shared,
                now_ms,
                old(self).sessions_root@,
            ),
    {
        let ghost start = (self.cache@, session_views(shown@));
        let ghost root = self.sessions_root@;
        let mut out = shown;
        let mut k: usize = 0;
        assert(plan@.take(0) =~= Seq::empty());
        while k < plan.len()
            invariant
                k <= plan@.len(),
                forall|i: int|
                    0 <= i < plan@.len() ==> (#[trigger] plan@[i]).index < transcripts@.len(),
                self.sessions_root@ == root,
                (self.cache@, session_views(out@)) == loaded_transcripts(
                    *policy,
                    start,
                    transcripts@,
                    plan@.take(k as int),
                    *shared,
                    now_ms,
                    root,
                ),
            decreases plan@.len() - k,
        {
            let ghost before = session_views(out@);
            assert(plan@.take(k + 1).drop_last() =~= plan@.take(k as int));
            assert(plan@.take(k + 1).last() == plan@[k as int]);
            let planned = plan[k];
            assert(plan@[k as int].index < transcripts@.len());
            let transcript = &transcripts[planned.index];
            if let Some(s) = self.load_session_from_transcript(
                policy,
                &transcript.header,
                planned.pid,
                planned.unknown_status,
                &transcript.log,
                shared,
                now_ms,
            ) {
                out.push(s);
                assert(session_views(out@) =~= before.push(s@));
            }
            k += 1;
        }
        assert(plan@.take(k as int) =~= plan@);
        out
    }

    /// The report of the sessions, the newest first, and the processes whose
    /// claims are to be dropped; what is known of the sessions that are not in
    /// the report is forgotten. Where there is no directory of sessions there
    /// is nothing to report, and nothing is forgotten.
    pub fn collect_sessions<P: HostPolicy>(
        &mut self,
        policy: &P,
        root_is_dir: bool,
        sidecars: &Vec<KnownSidecar>,
        transcripts: &Vec<KnownTranscript>,
        pi_pids: &Vec<u32>,
        cwds: &HashMap<u32, String>,
        shared: &SharedProcessData,
        now_ms: u64,
    ) -> (r: (Vec<AgentSession>, Vec<u32>))
        ensures
            final(self).sessions_root@ == old(self).sessions_root@,
            !root_is_dir ==> r.0@ == Seq::<AgentSession>::empty() && r.1@ == Seq::<u32>::empty()
                && final(self).cache@ == old(self).cache@,
            root_is_dir ==> r.1@ == dropped_claims(
                sidecars@,
                shared.process_info@,
                sidecars@.len(),
            ) && is_report(
                r.0@,
                final(self).cache@,
                loaded_sessions(
                    *policy,
                    old(self).cache@,
                    sidecars@,
                    transcripts@,
                    pi_pids@,
                    cwds@,
                    *shared,
                    now_ms,
                    old(self).sessions_root@,
                ),
            ),
    {
        if !root_is_dir {
            return (Vec::new(), Vec::new());
        }
        let (claim_plan, dropped) = PiCollector::plan_sidecars(sidecars, &shared.process_info);
        let transcript_plan = PiCollector::plan_transcripts(
            transcripts,
            sidecars,
            pi_pids,
            &shared.process_info,
            cwds,
        );
        proof {
            assert(sidecars@.len() == sidecars.len());
            assert(transcripts@.len() == transcripts.len());
            lemma_shown_claims(sidecars@, shared.process_info@, sidecars@.len());
            lemma_shown_transcripts(
                transcripts@,
                sidecars@,
                pi_pids@,
                shared.process_info@,
                cwds@,
                transcripts@.len(),
            );
        }
        let none: Vec<AgentSession> = Vec::new();
        assert(session_views(none@) =~= Seq::empty());
        let claimed = self.load_sidecars(policy, sidecars, &claim_plan, none, shared, now_ms);
        let found = self.load_transcripts(
            policy,
            transcripts,
            &transcript_plan,
            claimed,
            shared,
            now_ms,
        );
        let ghost unsorted = found@;
        let r = finish_report(&mut self.cache, found);
        assert(is_stable_sorting(unsorted, r@));
        (r, dropped)
    }
}

proof fn lemma_shown_claims(claims: Seq<KnownSidecar>, info: Map<u32, ProcInfo>, n: nat)
    requires
        n <= claims.len() <= usize::MAX,
    ensures
        ({
            let shown = shown_claims(claims, info, n);
            &&& forall|a: int| 0 <= a < shown.len() ==> (#[trigger] shown[a]).index < n
            &&& forall|a: int, b: int|
                0 <= a < b < shown.len() ==> (#[trigger] shown[a]).index < (
                #[trigger] shown[b]).index
        }),
    decreases n,
{
    if n > 0 {
        let m = (n - 1) as nat;
        lemma_shown_claims(claims, info, m);
        let rest = shown_claims(claims, info, m);
        let shown = shown_claims(claims, info, n);
        assert forall|a: int| 0 <= a < shown.len() implies (#[trigger] shown[a]).index < n by {
            if a < rest.len() {
                assert(shown[a] == rest[a]);
            }
        }
        assert forall|a: int, b: int| 0 <= a < b < shown.len() implies (#[trigger] shown[a]).index
            < (#[trigger] shown[b]).index by {
            assert(shown[a] == rest[a]);
            if b < rest.len() {
                assert(shown[b] == rest[b]);
            }
        }
    }
}

proof fn lemma_shown_transcripts(
    transcripts: Seq<KnownTranscript>,
    claims: Seq<KnownSidecar>,
    pids: Seq<u32>,
    info: Map<u32, ProcInfo>,
    cwds: Map<u32, String>,
    n: nat,
)
    requires
        n <= transcripts.len() <= usize::MAX,
    ensures
        ({
            let shown = shown_transcripts(transcripts, claims, pids, info, cwds, n);
            forall|a: int|
                0 <= a < shown.len() ==> (#[trigger] shown[a]).index < n && is_shown_transcript(
                    transcripts,
                    claims,
                    pids,
                    info,
                    cwds,
                    shown[a].index as int,
                ) && shown[a].pid == 0 && shown[a].unknown_status
        }),
        ({
            let shown = shown_transcripts(transcripts, claims, pids, info, cwds, n);
            forall|a: int, b: int|
                0 <= a < b < shown.len() ==> (#[trigger] shown[a]).index < (
                #[trigger] shown[b]).index
        }),
    decreases n,
{
    if n > 0 {
        let m = (n - 1) as nat;
        lemma_shown_transcripts(transcripts, claims, pids, info, cwds, m);
        let rest = shown_transcripts(transcripts, claims, pids, info, cwds, m);
        let shown = shown_transcripts(transcripts, claims, pids, info, cwds, n);
        assert forall|a: int| 0 <= a < shown.len() implies (#[trigger] shown[a]).index < n
            && is_shown_transcript(
            transcripts,
            claims,
            pids,
            info,
            cwds,
            shown[a].index as int,
        ) && shown[a].pid == 0 && shown[a].unknown_status by {
            if a < rest.len() {
                assert(shown[a] == rest[a]);
            }
        }
        assert forall|a: int, b: int| 0 <= a < b < shown.len() implies (#[trigger] shown[a]).index
            < (#[trigger] shown[b]).index by {
            assert(shown[a] == rest[a]);
            if b < rest.len() {
                assert(shown[b] == rest[b]);
            }
        }
    }
}

/// A session that a claim names, be the claim true or not, is never shown from
/// its transcript alone; nor is one in a directory that a true claim names. So
/// no session is shown twice, and none of a workspace's past beside the one
/// that runs there. What is shown so belongs to no process, and is of unknown
/// status.
pub proof fn law_claims_rule_out_transcripts(
    transcripts: Seq<KnownTranscript>,
    claims: Seq<KnownSidecar>,
    pids: Seq<u32>,
    info: Map<u32, ProcInfo>,
    cwds: Map<u32, String>,
    a: int,
)
    requires
        transcripts.len() <= usize::MAX,
        0 <= a < shown_transcripts(
            transcripts,
            claims,
            pids,
            info,
            cwds,
            transcripts.len(),
        ).len(),
    ensures
        ({
            let shown = shown_transcripts(
                transcripts,
                claims,
                pids,
                info,
                cwds,
                transcripts.len(),
            );
            let t = transcripts[shown[a].index as int];
            &&& shown[a].pid == 0
            &&& shown[a].unknown_status
            &&& forall|k: int|
                0 <= k < claims.len() ==> (#[trigger] claims[k]).sidecar.session_id@
                    != t.header.session_id@
            &&& forall|k: int|
                0 <= k < claims.len() && holds((#[trigger] claims[k]).sidecar, info)
                    ==> claims[k].sidecar.cwd@ != t.header.cwd@
        }),
{
    lemma_shown_transcripts(transcripts, claims, pids, info, cwds, transcripts.len());
    let shown = shown_transcripts(transcripts, claims, pids, info, cwds, transcripts.len());
    let t = transcripts[shown[a].index as int];
    assert(is_unclaimed(claims, info, t));
}

/// Whether no two of the sessions have the same identifier.
pub open spec fn distinct_ids(shown: Seq<SessionView>) -> bool {
    forall|a: int, b: int|
        0 <= a < b < shown.len() ==> (#[trigger] shown[a]).session_id != (
        #[trigger] shown[b]).session_id
}

proof fn lemma_loaded_claims<P: HostPolicy>(
    policy: P,
    caches: Map<Seq<char>, CacheView>,
    claims: Seq<KnownSidecar>,
    plan: Seq<PlannedSidecar>,
    shared: SharedProcessData,
    now_ms: u64,
    config_root: Seq<char>,
)
    requires
        forall|i: int, j: int|
            0 <= i < j < claims.len() ==> (#[trigger] claims[i]).sidecar.session_id@ != (
            #[trigger] claims[j]).sidecar.session_id@,
        forall|a: int| 0 <= a < plan.len() ==> (#[trigger] plan[a]).index < claims.len(),
        forall|a: int, b: int|
            0 <= a < b < plan.len() ==> (#[trigger] plan[a]).index < (#[trigger] plan[b]).index,
    ensures
        ({
            let shown = loaded_claims(
                policy,
                (caches, Seq::empty()),
                claims,
                plan,
                shared,
                now_ms,
                config_root,
            ).1;
            &&& distinct_ids(shown)
            &&& forall|a: int|
                0 <= a < shown.len() ==> exists|k: int|
                    0 <= k < plan.len() && claims[(#[trigger] plan[k]).index as int].sidecar.session_id@
                        == (#[trigger] shown[a]).session_id
        }),
    decreases plan.len(),
{
    if plan.len() > 0 {
        let most = plan.drop_last();
        assert forall|a: int| 0 <= a < most.len() implies (#[trigger] most[a]).index
            < claims.len() by {
            assert(plan[a].index < claims.len());
        }
        assert forall|a: int, b: int| 0 <= a < b < most.len() implies (#[trigger] most[a]).index
            < (#[trigger] most[b]).index by {
            assert(plan[a].index < plan[b].index);
        }
        lemma_loaded_claims(policy, caches, claims, most, shared, now_ms, config_root);
        let start = (caches, Seq::<SessionView>::empty());
        let rest = loaded_claims(policy, start, claims, most, shared, now_ms, config_root).1;
        let shown = loaded_claims(policy, start, claims, plan, shared, now_ms, config_root).1;
        let last = plan.len() - 1;
        assert forall|a: int| 0 <= a < rest.len() implies exists|k: int|
            0 <= k < last && claims[(#[trigger] plan[k]).index as int].sidecar.session_id@ == (
            #[trigger] rest[a]).session_id by {
            let k = choose|k: int|
                0 <= k < most.len() && claims[(#[trigger] most[k]).index as int].sidecar.session_id@
                    == rest[a].session_id;
            assert(plan[k] == most[k]);
        }
        assert forall|a: int| 0 <= a < shown.len() implies exists|k: int|
            0 <= k < plan.len() && claims[(#[trigger] plan[k]).index as int].sidecar.session_id@
                == (#[trigger] shown[a]).session_id by {
            if a < rest.len() {
                assert(shown[a] == rest[a]);
            } else {
                assert(claims[plan[last].index as int].sidecar.session_id@ == shown[a].session_id);
            }
        }
        assert forall|a: int, b: int| 0 <= a < b < shown.len() implies (
        #[trigger] shown[a]).session_id != (#[trigger] shown[b]).session_id by {
            assert(shown[a] == rest[a]);
            if b < rest.len() {
                assert(shown[b] == rest[b]);
            } else {
                let k = choose|k: int|
                    0 <= k < last && claims[(#[trigger] plan[k]).index as int].sidecar.session_id@
                        == rest[a].session_id;
                assert(plan[k].index < plan[last].index);
                assert(claims[plan[k].index as int].sidecar.session_id@
                    != claims[plan[last].index as int].sidecar.session_id@);
            }
        }
    }
}

proof fn lemma_loaded_transcripts<P: HostPolicy>(
    policy: P,
    start: (Map<Seq<char>, CacheView>, Seq<SessionView>),
    claims: Seq<KnownSidecar>,
    transcripts: Seq<KnownTranscript>,
    plan: Seq<PlannedTranscript>,
    shared: SharedProcessData,
    now_ms: u64,
    config_root: Seq<char>,
)
    requires
        distinct_ids(start.1),
        forall|a: int|
            0 <= a < start.1.len() ==> is_claimed(claims, (#[trigger] start.1[a]).session_id),
        forall|i: int, j: int|
            0 <= i < j < transcripts.len() ==> (#[trigger] transcripts[i]).header.session_id@ != (
            #[trigger] transcripts[j]).header.session_id@,
        forall|a: int|
            0 <= a < plan.len() ==> (#[trigger] plan[a]).index < transcripts.len()
                && !is_claimed(claims, transcripts[plan[a].index as int].header.session_id@),
        forall|a: int, b: int|
            0 <= a < b < plan.len() ==> (#[trigger] plan[a]).index < (#[trigger] plan[b]).index,
    ensures
        ({
            let shown = loaded_transcripts(
                policy,
                start,
                transcripts,
                plan,
                shared,
                now_ms,
                config_root,
            ).1;
            &&& distinct_ids(shown)
            &&& forall|a: int|
                0 <= a < shown.len() ==> is_claimed(claims, (#[trigger] shown[a]).session_id)
                    || exists|k: int|
                    0 <= k < plan.len() && transcripts[(#[trigger] plan[k]).index as int].header.session_id@
                        == shown[a].session_id
        }),
    decreases plan.len(),
{
    if plan.len() > 0 {
        let most = plan.drop_last();
        assert forall|a: int| 0 <= a < most.len() implies (#[trigger] most[a]).index
            < transcripts.len() && !is_claimed(
            claims,
            transcripts[most[a].index as int].header.session_id@,
        ) by {
            assert(plan[a].index < transcripts.len());
        }
        assert forall|a: int, b: int| 0 <= a < b < most.len() implies (#[trigger] most[a]).index
            < (#[trigger] most[b]).index by {
            assert(plan[a].index < plan[b].index);
        }
        lemma_loaded_transcripts(
            policy,
            start,
            claims,
            transcripts,
            most,
            shared,
            now_ms,
            config_root,
        );
        let rest = loaded_transcripts(
            policy,
            start,
            transcripts,
            most,
            shared,
            now_ms,
            config_root,
        ).1;
        let shown = loaded_transcripts(
            policy,
            start,
            transcripts,
            plan,
            shared,
            now_ms,
            config_root,
        ).1;
        let last = plan.len() - 1;
        let new_id = transcripts[plan[last].index as int].header.session_id@;
        assert(!is_claimed(claims, new_id));
        assert forall|a: int| 0 <= a < rest.len() && !is_claimed(
            claims,
            (#[trigger] rest[a]).session_id,
        ) implies exists|k: int|
            0 <= k < last && transcripts[(#[trigger] plan[k]).index as int].header.session_id@
                == rest[a].session_id by {
            let k = choose|k: int|
                0 <= k < most.len() && transcripts[(#[trigger] most[k]).index as int].header.session_id@
                    == rest[a].session_id;
            assert(plan[k] == most[k]);
        }
        assert forall|a: int| 0 <= a < shown.len() implies is_claimed(
            claims,
            (#[trigger] shown[a]).session_id,
        ) || exists|k: int|
            0 <= k < plan.len() && transcripts[(#[trigger] plan[k]).index as int].header.session_id@
                == shown[a].session_id by {
            if a < rest.len() {
                assert(shown[a] == rest[a]);
            } else {
                assert(transcripts[plan[last].index as int].header.session_id@
                    == shown[a].session_id);
            }
        }
        assert forall|a: int, b: int| 0 <= a < b < shown.len() implies (
        #[trigger] shown[a]).session_id != (#[trigger] shown[b]).session_id by {
            assert(shown[a] == rest[a]);
            if b < rest.len() {
                assert(shown[b] == rest[b]);
            } else if !is_claimed(claims, rest[a].session_id) {
                let k = choose|k: int|
                    0 <= k < last && transcripts[(#[trigger] plan[k]).index as int].header.session_id@
                        == rest[a].session_id;
                assert(plan[k].index < plan[last].index);
                assert(transcripts[plan[k].index as int].header.session_id@ != new_id);
            }
        }
    }
}

/// No session is reported twice: where the claims name different sessions, and
/// so do the transcripts, the sessions that are loaded are all different,
/// though a session may have both a claim and a transcript.
pub proof fn law_no_session_is_reported_twice<P: HostPolicy>(
    policy: P,
    caches: Map<Seq<char>, CacheView>,
    claims: Seq<KnownSidecar>,
    transcripts: Seq<KnownTranscript>,
    pids: Seq<u32>,
    cwds: Map<u32, String>,
    shared: SharedProcessData,
    now_ms: u64,
    config_root: Seq<char>,
)
    requires
        claims.len() <= usize::MAX,
        transcripts.len() <= usize::MAX,
        forall|i: int, j: int|
            0 <= i < j < claims.len() ==> (#[trigger] claims[i]).sidecar.session_id@ != (
            #[trigger] claims[j]).sidecar.session_id@,
        forall|i: int, j: int|
            0 <= i < j < transcripts.len() ==> (#[trigger] transcripts[i]).header.session_id@ != (
            #[trigger] transcripts[j]).header.session_id@,
    ensures
        distinct_ids(
            loaded_sessions(
                policy,
                caches,
                claims,
                transcripts,
                pids,
                cwds,
                shared,
                now_ms,
                config_root,
            ).1,
        ),
{
    let info = shared.process_info@;
    let claim_plan = shown_claims(claims, info, claims.len());
    let plan = shown_transcripts(transcripts, claims, pids, info, cwds, transcripts.len());
    lemma_shown_claims(claims, info, claims.len());
    lemma_shown_transcripts(transcripts, claims, pids, info, cwds, transcripts.len());
    lemma_loaded_claims(policy, caches, claims, claim_plan, shared, now_ms, config_root);
    let start = loaded_claims(
        policy,
        (caches, Seq::empty()),
        claims,
        claim_plan,
        shared,
        now_ms,
        config_root,
    );
    assert forall|a: int| 0 <= a < start.1.len() implies is_claimed(
        claims,
        (#[trigger] start.1[a]).session_id,
    ) by {
        let k = choose|k: int|
            0 <= k < claim_plan.len()
                && claims[(#[trigger] claim_plan[k]).index as int].sidecar.session_id@
                == start.1[a].session_id;
        assert(claims[claim_plan[k].index as int].sidecar.session_id@ == start.1[a].session_id);
    }
    assert forall|a: int| 0 <= a < plan.len() implies (#[trigger] plan[a]).index
        < transcripts.len() && !is_claimed(
        claims,
        transcripts[plan[a].index as int].header.session_id@,
    ) by {
        assert(is_unclaimed(claims, info, transcripts[plan[a].index as int]));
    }
    lemma_loaded_transcripts(
        policy,
        start,
        claims,
        transcripts,
        plan,
        shared,
        now_ms,
        config_root,
    );
}

/// A directory where a process works shows one transcript at most, and no
/// transcript is shown twice.
pub proof fn law_one_transcript_per_occupied_directory(
    transcripts: Seq<KnownTranscript>,
    claims: Seq<KnownSidecar>,
    pids: Seq<u32>,
    info: Map<u32, ProcInfo>,
    cwds: Map<u32, String>,
    a: int,
    b: int,
)
    requires
        transcripts.len() <= usize::MAX,
        ({
            let shown = shown_transcripts(
                transcripts,
                claims,
                pids,
                info,
                cwds,
                transcripts.len(),
            );
            &&& 0 <= a < shown.len()
            &&& 0 <= b < shown.len()
            &&& (shown[a].index == shown[b].index || is_attributed(
                pids,
                cwds,
                transcripts[shown[a].index as int],
            ) && transcripts[shown[a].index as int].header.cwd@
                == transcripts[shown[b].index as int].header.cwd@)
        }),
    ensures
        a == b,
{
    lemma_shown_transcripts(transcripts, claims, pids, info, cwds, transcripts.len());
    let shown = shown_transcripts(transcripts, claims, pids, info, cwds, transcripts.len());
    let i = shown[a].index as int;
    let j = shown[b].index as int;
    assert(is_shown_transcript(transcripts, claims, pids, info, cwds, i));
    assert(is_shown_transcript(transcripts, claims, pids, info, cwds, j));
    if a < b {
        assert(shown[a].index < shown[b].index);
        assert(transcripts[i].header.cwd@ == transcripts[j].header.cwd@);
        assert(is_first_in_dir(transcripts, claims, info, j));
    } else if b < a {
        assert(shown[b].index < shown[a].index);
        assert(transcripts[j].header.cwd@ == transcripts[i].header.cwd@);
        assert(is_first_in_dir(transcripts, claims, info, i));
    }
}

proof fn lemma_dropped_claims(claims: Seq<KnownSidecar>, info: Map<u32, ProcInfo>, n: nat)
    requires
        n <= claims.len(),
    ensures
        forall|pid: u32| #[trigger]
            dropped_claims(claims, info, n).contains(pid) <==> exists|k: int|
                0 <= k < n && (#[trigger] claims[k]).sidecar.pid == pid && is_dropped_claim(
                    claims[k],
                    info,
                ),
    decreases n,
{
    if n > 0 {
        let m = (n - 1) as nat;
        lemma_dropped_claims(claims, info, m);
        let rest = dropped_claims(claims, info, m);
        let all = dropped_claims(claims, info, n);
        assert forall|pid: u32| #[trigger] all.contains(pid) <==> exists|k: int|
            0 <= k < n && (#[trigger] claims[k]).sidecar.pid == pid && is_dropped_claim(
                claims[k],
                info,
            ) by {
            if all.contains(pid) {
                let x = choose|x: int| 0 <= x < all.len() && all[x] == pid;
                if x < rest.len() {
                    assert(rest[x] == pid);
                    assert(rest.contains(pid));
                    let k = choose|k: int|
                        0 <= k < m && (#[trigger] claims[k]).sidecar.pid == pid
                            && is_dropped_claim(claims[k], info);
                    assert(claims[k].sidecar.pid == pid);
                } else {
                    assert(claims[m as int].sidecar.pid == pid);
                }
            }
            if exists|k: int|
                0 <= k < n && (#[trigger] claims[k]).sidecar.pid == pid && is_dropped_claim(
                    claims[k],
                    info,
                ) {
                let k = choose|k: int|
                    0 <= k < n && (#[trigger] claims[k]).sidecar.pid == pid && is_dropped_claim(
                        claims[k],
                        info,
                    );
                if k < m {
                    assert(rest.contains(pid));
                    let x = choose|x: int| 0 <= x < rest.len() && rest[x] == pid;
                    assert(all[x] == pid);
                } else {
                    assert(all[rest.len() as int] == pid);
                }
            }
        }
    }
}

/// A claim is dropped only when its process is gone and its transcript has not
/// changed for a while; and then it is dropped, and not shown.
pub proof fn law_only_dead_claims_are_dropped(
    claims: Seq<KnownSidecar>,
    info: Map<u32, ProcInfo>,
    k: int,
)
    requires
        0 <= k < claims.len(),
    ensures
        is_dropped_claim(claims[k], info) ==> !is_shown_claim(claims[k], info) && dropped_claims(
            claims,
            info,
            claims.len(),
        ).contains(claims[k].sidecar.pid),
        info.contains_key(claims[k].sidecar.pid) ==> !dropped_claims(
            claims,
            info,
            claims.len(),
        ).contains(claims[k].sidecar.pid),
{
    lemma_dropped_claims(claims, info, claims.len());
}

/// The status is unknown where, and only where, nobody confirms that the
/// process runs the session.
pub proof fn law_unverified_is_unknown(
    c: CacheView,
    pid: u32,
    verified: bool,
    shared: SharedProcessData,
    now_ms: u64,
)
    ensures
        pi_status(c, pid, verified, shared, now_ms) == SessionStatus::Unknown <==> !verified,
{
}

/// A task that was shown last does not keep a session busy: once it was not
/// active for a while, and nothing runs below its process, it waits.
pub proof fn law_idle_session_waits(
    c: CacheView,
    pid: u32,
    shared: SharedProcessData,
    now_ms: u64,
)
    requires
        !is_recent(c.last_activity, now_ms),
        !active_below(pid, shared.children_map@, shared.process_info@, ACTIVE_LOAD),
    ensures
        pi_status(c, pid, true, shared, now_ms) == SessionStatus::Waiting,
{
}

} // verus!
