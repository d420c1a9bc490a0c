//! What the collectors' operations give back, and what they leave behind.
use crate::activity::SessionDelta;
use crate::cache::LogFile;
use crate::cache::SessionCache;
use crate::cache::is_bounded;
use crate::caches::SessionCaches;
use crate::caches::known;
use crate::content::BlockKinds;
use crate::content::ToolKind;
use crate::content::extract_text_from_content;
use crate::content::parse_tool_args;
use crate::content::shown_text;
use crate::hermes::DbSession;
use crate::hermes::DbState;
use crate::hermes::HermesCollector;
use crate::hermes::HermesCommand;
use crate::hermes::answer_sessions;
use crate::hermes::is_memory_order;
use crate::hermes::paired_session;
use crate::hermes::query_sessions;
use crate::hermes::reported;
use crate::hermes::row_views;
use crate::hermes::unknown_session;
use crate::json::Json;
use crate::json::JsonTree;
use crate::json::json_text;
use crate::kimi::collector::KimiCollector;
use crate::kimi::collector::PlannedSession;
use crate::kimi::collector::is_running;
use crate::kimi::collector::kimi_session;
use crate::kimi::collector::loaded;
use crate::kimi::collector::planned;
use crate::kimi::config::ConfigRoot;
use crate::kimi::config::RootFacts;
use crate::kimi::config::configured_model;
use crate::kimi::config::is_kimi_root;
use crate::kimi::config::kimi_config_root;
use crate::kimi::config::read_kimi_model;
use crate::kimi::config::root_choice;
use crate::kimi::index::IndexEntry;
use crate::kimi::index::KnownSession;
use crate::kimi::index::WorkDir;
use crate::kimi::index::current_session_ids;
use crate::kimi::index::is_current;
use crate::kimi::index::lock_pid;
use crate::kimi::index::read_server_lock_pid;
use crate::kimi::index::read_session_index;
use crate::kimi::index::read_state_title;
use crate::kimi::index::rows;
use crate::kimi::index::session_rows;
use crate::kimi::index::shown_title;
use crate::kimi::wire::Wire;
use crate::kimi::wire;
use crate::laws::kimi_log;
use crate::laws::looks::is_given;
use crate::laws::looks::new_events;
use crate::laws::looks::standing;
use crate::laws::looks::total;
use crate::laws::pi_log;
use crate::laws::process::law_children_are_the_known_processes_below;
use crate::laws::process::runs_below;
use crate::model::AgentSession;
use crate::model::ChildProcess;
use crate::model::SessionStatus;
use crate::pi::collector::KnownSidecar;
use crate::pi::collector::KnownTranscript;
use crate::pi::collector::PiCollector;
use crate::pi::collector::PlannedSidecar;
use crate::pi::collector::PlannedTranscript;
use crate::pi::collector::combine_version;
use crate::pi::collector::derive_status;
use crate::pi::collector::dropped_claims;
use crate::pi::collector::loaded_sessions;
use crate::pi::collector::shown_claims;
use crate::pi::collector::shown_transcripts;
use crate::pi::collector::sidecar_session;
use crate::pi::collector::transcript_session;
use crate::pi::discovery::TranscriptFile;
use crate::pi::discovery::TranscriptHeader;
use crate::pi::discovery::discover_transcripts;
use crate::pi::discovery::pi_agent_dir;
use crate::pi::discovery::read_transcript_header;
use crate::pi::discovery::transcript_header;
use crate::pi::discovery::transcripts_among;
use crate::pi::sidecar::ClaimFile;
use crate::pi::sidecar::Sidecar;
use crate::pi::sidecar::file_claims;
use crate::pi::sidecar::holds;
use crate::pi::sidecar::read_active_sidecars;
use crate::pi::sidecar::verify_sidecar;
use crate::pi::transcript::Transcript;
use crate::pi::transcript;
use crate::policy::HostPolicy;
use crate::process::CommandFilter;
use crate::process::ProcInfo;
use crate::process::SharedProcessData;
use crate::process::ancestors;
use crate::process::binary_name;
use crate::process::collect_children;
use crate::report::is_report;
use crate::tailing::countable;
use crate::tailing::log_delta;
use crate::tailing::look_fits;
use crate::tailing::looked;
use crate::text::strs;
use crate::timestamp::timestamp_ms;
use crate::timestamp::timestamp_value;
use std::collections::HashMap;
use vstd::prelude::*;

verus! {

/// Loading a claimed session reads its transcript on from what was known of it:
/// the tokens of its new turns are added, the claim is shown, and what was found
/// is known from then on. Where the transcript cannot be looked at there is no
/// session, and nothing is known of it.
pub proof fn law_claimed_session_is_loaded<P: HostPolicy>(
    collector: &mut PiCollector,
    policy: &P,
    sc: &Sidecar,
    verified: bool,
    log: &Option<LogFile>,
    shared: &SharedProcessData,
    now_ms: u64,
    r: Option<AgentSession>,
)
    requires
        call_ensures(
            PiCollector::load_session_from_sidecar::<P>,
            (collector, policy, sc, verified, log, shared, now_ms),
            r,
        ),
    ensures
        ({
            let id = sc.session_id@;
            let before = known(old(collector).cache@, id);
            let after = looked::<P, Transcript>(*policy, before, *log);
            &&& final(collector).sessions_root@ == old(collector).sessions_root@
            &&& r is Some <==> look_fits::<P, Transcript>(*policy, before, *log)
            &&& r is Some ==> r->0@ == sidecar_session(
                after,
                sc@,
                verified,
                *shared,
                now_ms,
                old(collector).sessions_root@,
            ) && final(collector).cache@ == old(collector).cache@.insert(id, after)
            &&& r is None ==> final(collector).cache@ == old(collector).cache@.remove(id)
            &&& r is Some && log is Some && is_given(log->0) && is_bounded(*policy, before) ==> ({
                let events = new_events(before, log->0);
                let count = standing(before, log->0);
                &&& r->0.total_input_tokens == count.total_input + total(
                    events,
                    |e: JsonTree| pi_log::tokens_of(e, "input"@),
                )
                &&& r->0.total_output_tokens == count.total_output + total(
                    events,
                    |e: JsonTree| pi_log::tokens_of(e, "output"@),
                )
                &&& r->0.total_cache_read == count.total_cache_read + total(
                    events,
                    |e: JsonTree| pi_log::tokens_of(e, "cacheRead"@),
                )
                &&& r->0.total_cache_create == count.total_cache_create + total(
                    events,
                    |e: JsonTree| pi_log::tokens_of(e, "cacheWrite"@),
                )
                &&& r->0.pid == sc.pid
            })
        }),
{
    let before = known(old(collector).cache@, sc.session_id@);
    if r is Some && log is Some && is_given(log->0) && is_bounded(*policy, before) {
        crate::laws::pi::law_tokens_are_summed(
            *policy,
            before,
            log->0,
            *shared,
            now_ms,
            old(collector).sessions_root@,
            r->0@,
        );
    }
}

/// Loading a session by its transcript alone reads the transcript on from what
/// was known of it, as loading a claimed one does.
pub proof fn law_unclaimed_session_is_loaded<P: HostPolicy>(
    collector: &mut PiCollector,
    policy: &P,
    header: &TranscriptHeader,
    pid: u32,
    unknown: bool,
    log: &Option<LogFile>,
    shared: &SharedProcessData,
    now_ms: u64,
    r: Option<AgentSession>,
)
    requires
        call_ensures(
            PiCollector::load_session_from_transcript::<P>,
            (collector, policy, header, pid, unknown, log, shared, now_ms),
            r,
        ),
    ensures
        ({
            let id = header.session_id@;
            let before = known(old(collector).cache@, id);
            let after = looked::<P, Transcript>(*policy, before, *log);
            &&& final(collector).sessions_root@ == old(collector).sessions_root@
            &&& r is Some <==> look_fits::<P, Transcript>(*policy, before, *log)
            &&& r is Some ==> r->0@ == transcript_session(
                after,
                header@,
                pid,
                unknown,
                *shared,
                now_ms,
                old(collector).sessions_root@,
            ) && final(collector).cache@ == old(collector).cache@.insert(id, after)
            &&& r is None ==> final(collector).cache@ == old(collector).cache@.remove(id)
            &&& r is Some && log is Some && is_given(log->0) && is_bounded(*policy, before) ==> ({
                let events = new_events(before, log->0);
                let count = standing(before, log->0);
                &&& r->0.total_input_tokens == count.total_input + total(
                    events,
                    |e: JsonTree| pi_log::tokens_of(e, "input"@),
                )
                &&& r->0.total_output_tokens == count.total_output + total(
                    events,
                    |e: JsonTree| pi_log::tokens_of(e, "output"@),
                )
                &&& r->0.total_cache_read == count.total_cache_read + total(
                    events,
                    |e: JsonTree| pi_log::tokens_of(e, "cacheRead"@),
                )
                &&& r->0.total_cache_create == count.total_cache_create + total(
                    events,
                    |e: JsonTree| pi_log::tokens_of(e, "cacheWrite"@),
                )
                &&& r->0.pid == pid
            })
        }),
{
    let before = known(old(collector).cache@, header.session_id@);
    if r is Some && log is Some && is_given(log->0) && is_bounded(*policy, before) {
        crate::laws::pi::law_tokens_are_summed(
            *policy,
            before,
            log->0,
            *shared,
            now_ms,
            old(collector).sessions_root@,
            r->0@,
        );
    }
}

/// Loading a session of kimi-code reads its log on from what was known of it:
/// the tokens of its new records are added, and what was found is known from
/// then on. Where the log cannot be looked at there is no session, and nothing
/// is known of it.
pub proof fn law_kimi_session_is_loaded<P: HostPolicy>(
    collector: &mut KimiCollector,
    policy: &P,
    session: &KnownSession,
    pid: u32,
    model_default: &str,
    shared: &SharedProcessData,
    now_ms: u64,
    r: Option<AgentSession>,
)
    requires
        call_ensures(
            KimiCollector::load_session::<P>,
            (collector, policy, session, pid, model_default, shared, now_ms),
            r,
        ),
    ensures
        ({
            let id = session.entry.session_id@;
            let before = known(old(collector).cache@, id);
            let after = looked::<P, Wire>(*policy, before, session.log);
            &&& final(collector).config_root@ == old(collector).config_root@
            &&& r is Some <==> look_fits::<P, Wire>(*policy, before, session.log)
            &&& r is Some ==> r->0@ == kimi_session(
                after,
                *session,
                pid,
                model_default@,
                *shared,
                now_ms,
                old(collector).config_root@,
            ) && final(collector).cache@ == old(collector).cache@.insert(id, after)
            &&& r is None ==> final(collector).cache@ == old(collector).cache@.remove(id)
            &&& r is Some && session.log is Some && is_given(session.log->0) && is_bounded(
                *policy,
                before,
            ) ==> ({
                let events = new_events(before, session.log->0);
                let count = standing(before, session.log->0);
                &&& r->0.total_input_tokens == count.total_input + total(
                    events,
                    |e: JsonTree| kimi_log::tokens_of(e, "inputOther"@),
                )
                &&& r->0.total_output_tokens == count.total_output + total(
                    events,
                    |e: JsonTree| kimi_log::tokens_of(e, "output"@),
                )
                &&& r->0.total_cache_read == count.total_cache_read + total(
                    events,
                    |e: JsonTree| kimi_log::tokens_of(e, "inputCacheRead"@),
                )
                &&& r->0.total_cache_create == count.total_cache_create + total(
                    events,
                    |e: JsonTree| kimi_log::tokens_of(e, "inputCacheCreation"@),
                )
                &&& r->0.pid == pid
            })
        }),
{
    let before = known(old(collector).cache@, session.entry.session_id@);
    if r is Some && session.log is Some && is_given(session.log->0) && is_bounded(*policy, before) {
        crate::laws::kimi::law_tokens_are_summed(*policy, before, session.log->0, r->0@);
    }
}

/// An event is added to what was told before it.
pub proof fn law_events_are_added<P: HostPolicy>(
    policy: &P,
    val: &Json,
    a: &mut SessionDelta,
    b: &mut SessionDelta,
)
    requires
        call_ensures(wire::handle_wire_event::<P>, (policy, val, a), ()),
        call_ensures(transcript::handle_transcript_event::<P>, (policy, val, b), ()),
    ensures
        final(a)@ == wire::wire_step(*policy, val@, old(a)@),
        final(b)@ == transcript::transcript_step(*policy, val@, old(b)@),
{
}

/// A part of a log is parsed where its counts fit, and tells what it holds.
pub proof fn law_parts_are_parsed<P: HostPolicy>(
    policy: &P,
    file_len: u64,
    tail: &[u8],
    from: u64,
    a: Option<SessionDelta>,
    b: Option<SessionDelta>,
)
    requires
        call_ensures(wire::parse_wire::<P>, (policy, file_len, tail, from), a),
        call_ensures(transcript::parse_transcript::<P>, (policy, file_len, tail, from), b),
    ensures
        a is Some <==> countable::<P, Wire>(*policy, file_len, tail@, from),
        a is Some ==> a->0@ == log_delta::<P, Wire>(*policy, file_len, tail@, from),
        b is Some <==> countable::<P, Transcript>(*policy, file_len, tail@, from),
        b is Some ==> b->0@ == log_delta::<P, Transcript>(*policy, file_len, tail@, from),
{
}

/// The processes that are found are those of the agent, each once; of kimi-code
/// and Pi only those that do not run below this program.
pub proof fn law_agents_are_found(
    info: &HashMap<u32, ProcInfo>,
    self_pid: u32,
    kimi: Vec<u32>,
    pi: Vec<u32>,
    hermes: Vec<u32>,
    order: Vec<u32>,
    pid: u32,
)
    requires
        call_ensures(KimiCollector::find_kimi_pids, (info, self_pid), kimi),
        call_ensures(PiCollector::find_pi_pids, (info, self_pid), pi),
        call_ensures(HermesCollector::find_hermes_pids, (info,), hermes),
        call_ensures(HermesCollector::pids_by_memory, (info,), order),
    ensures
        kimi@.no_duplicates() && pi@.no_duplicates() && hermes@.no_duplicates(),
        kimi@.contains(pid) <==> info@.contains_key(pid) && binary_name(info@[pid].command@)
            == "kimi-code"@ && !ancestors(info@, pid).contains(self_pid),
        pi@.contains(pid) <==> info@.contains_key(pid) && !ancestors(info@, pid).contains(self_pid)
            && (binary_name(info@[pid].command@) == "pi"@ || binary_name(info@[pid].command@)
            == "my-pi-agent"@ || binary_name(info@[pid].command@) == "pi-coding-agent"@
            || binary_name(info@[pid].command@) == "my-pi-agent.exe"@),
        hermes@.contains(pid) <==> info@.contains_key(pid) && HermesCommand::wants(
            info@[pid].command@,
        ),
        is_memory_order(order@, info@),
{
}

/// The children that are collected are the known processes below, each once.
pub proof fn law_children_are_collected(
    pid: u32,
    shared: &SharedProcessData,
    r: Vec<ChildProcess>,
    i: int,
)
    requires
        call_ensures(collect_children, (pid, shared), r),
        0 <= i < r@.len(),
    ensures
        runs_below(shared.children_map@, pid, r@[i].pid),
        shared.process_info@.contains_key(r@[i].pid),
        r@[i].command@ == shared.process_info@[r@[i].pid].command@,
        r@[i].mem_kb == shared.process_info@[r@[i].pid].rss_kb,
        forall|j: int| 0 <= j < i ==> (#[trigger] r@[j]).pid != r@[i].pid,
{
    law_children_are_the_known_processes_below(pid, *shared);
    let views = crate::model::kids(r@);
    assert(views[i] == r@[i]@);
    assert forall|j: int| 0 <= j < i implies (#[trigger] r@[j]).pid != r@[i].pid by {
        assert(views[j] == r@[j]@);
        assert(views[j].pid != views[i].pid);
    }
}

/// The report of kimi-code is made of the sessions of its plan; where there is
/// no directory of sessions, or the agent does not run, it is empty, and nothing
/// is forgotten.
pub proof fn law_kimi_is_reported<P: HostPolicy>(
    collector: &mut KimiCollector,
    policy: &P,
    root: RootFacts,
    sessions: &Vec<KnownSession>,
    pids: &Vec<u32>,
    server: Option<u32>,
    cwds: &HashMap<u32, String>,
    model_default: &str,
    shared: &SharedProcessData,
    now_ms: u64,
    r: Vec<AgentSession>,
)
    requires
        call_ensures(
            KimiCollector::collect_sessions::<P>,
            (
                collector,
                policy,
                root,
                sessions,
                pids,
                server,
                cwds,
                model_default,
                shared,
                now_ms,
            ),
            r,
        ),
    ensures
        final(collector).config_root@ == old(collector).config_root@,
        !(root.is_dir && root.has_sessions) || !is_running(shared.process_info@, pids@, server)
            ==> r@.len() == 0 && final(collector).cache@ == old(collector).cache@,
        root.is_dir && root.has_sessions && is_running(shared.process_info@, pids@, server)
            ==> is_report(
            r@,
            final(collector).cache@,
            loaded(
                *policy,
                old(collector).cache@,
                sessions@,
                planned(sessions@, pids@, server, shared.process_info@, cwds@),
                model_default@,
                *shared,
                now_ms,
                old(collector).config_root@,
            ),
        ),
{
}

/// The report of Pi is made of the sessions that claims name and of those of
/// transcripts without one; the claims of processes that are gone are dropped.
/// Where there is no directory of sessions it is empty, and nothing is dropped
/// or forgotten.
pub proof fn law_pi_is_reported<P: HostPolicy>(
    collector: &mut PiCollector,
    policy: &P,
    root_is_dir: bool,
    sidecars: &Vec<KnownSidecar>,
    transcripts: &Vec<KnownTranscript>,
    pids: &Vec<u32>,
    cwds: &HashMap<u32, String>,
    shared: &SharedProcessData,
    now_ms: u64,
    r: (Vec<AgentSession>, Vec<u32>),
)
    requires
        call_ensures(
            PiCollector::collect_sessions::<P>,
            (collector, policy, root_is_dir, sidecars, transcripts, pids, cwds, shared, now_ms),
            r,
        ),
    ensures
        final(collector).sessions_root@ == old(collector).sessions_root@,
        !root_is_dir ==> r.0@.len() == 0 && r.1@.len() == 0 && final(collector).cache@ == old(
            collector,
        ).cache@,
        root_is_dir ==> r.1@ == dropped_claims(
            sidecars@,
            shared.process_info@,
            sidecars@.len(),
        ),
        root_is_dir ==> is_report(
            r.0@,
            final(collector).cache@,
            loaded_sessions(
                *policy,
                old(collector).cache@,
                sidecars@,
                transcripts@,
                pids@,
                cwds@,
                *shared,
                now_ms,
                old(collector).sessions_root@,
            ),
        ),
{
}

/// The report of Hermes is made of the rows that are known, paired with its
/// processes, the largest first. New rows are taken over at a moment for costly
/// queries. Where the database is a link, is not there or cannot be queried the
/// report is empty, and the rows are forgotten.
pub proof fn law_hermes_is_reported(
    collector: &mut HermesCollector,
    db: DbState,
    new_rows: Option<Vec<DbSession>>,
    cwds: &HashMap<u32, String>,
    shared: &SharedProcessData,
    now_ms: u64,
    r: Vec<AgentSession>,
)
    requires
        call_ensures(
            HermesCollector::collect_sessions,
            (collector, db, new_rows, cwds, shared, now_ms),
            r,
        ),
    ensures
        final(collector).home_dir@ == old(collector).home_dir@,
        db.is_symlink || !db.exists || !db.can_query ==> r@.len() == 0 && row_views(
            final(collector).cached_db_sessions@,
        ).len() == 0,
        !db.is_symlink && db.exists && db.can_query ==> {
            &&& shared.slow_tick && new_rows is Some ==> row_views(
                final(collector).cached_db_sessions@,
            ) == row_views(new_rows->0@)
            &&& !shared.slow_tick || new_rows is None ==> row_views(
                final(collector).cached_db_sessions@,
            ) == row_views(old(collector).cached_db_sessions@)
            &&& exists|order: Seq<u32>| #[trigger]
                is_memory_order(order, shared.process_info@) && crate::hermes::is_report(
                    r@,
                    row_views(final(collector).cached_db_sessions@),
                    order,
                    cwds@,
                    *shared,
                    now_ms,
                    old(collector).home_dir@,
                )
        },
{
}

/// A session of Hermes is built from its row and its process, or without one.
pub proof fn law_hermes_sessions_are_built(
    collector: &HermesCollector,
    ds: &DbSession,
    pid: u32,
    cwds: &HashMap<u32, String>,
    shared: &SharedProcessData,
    now_ms: u64,
    a: AgentSession,
    b: AgentSession,
)
    requires
        call_ensures(
            HermesCollector::build_session,
            (collector, ds, pid, cwds, shared, now_ms),
            a,
        ),
        call_ensures(HermesCollector::build_unknown_session, (collector, ds), b),
    ensures
        a@ == paired_session(ds@, pid, cwds@, *shared, now_ms, collector.home_dir@),
        b@ == unknown_session(ds@, collector.home_dir@),
        a.total_input_tokens == ds.input_tokens && b.total_input_tokens == ds.input_tokens,
        a.total_output_tokens == ds.output_tokens && b.total_output_tokens == ds.output_tokens,
        a.total_cache_read == ds.cache_read && b.total_cache_read == ds.cache_read,
        a.total_cache_create == ds.cache_write && b.total_cache_create == ds.cache_write,
        a.session_id@ == ds.id@ && b.session_id@ == ds.id@,
        a.started_at == ds.started_at_ms && b.started_at == ds.started_at_ms,
        a.pid == pid && b.pid == 0,
{
}

/// The plans name the sessions that are shown.
pub proof fn law_plans_are_made(
    sessions: &Vec<KnownSession>,
    live: &Vec<u32>,
    server: Option<u32>,
    info: &HashMap<u32, ProcInfo>,
    cwds: &HashMap<u32, String>,
    sidecars: &Vec<KnownSidecar>,
    transcripts: &Vec<KnownTranscript>,
    a: Vec<PlannedSession>,
    b: (Vec<PlannedSidecar>, Vec<u32>),
    c: Vec<PlannedTranscript>,
)
    requires
        call_ensures(KimiCollector::plan_sessions, (sessions, live, server, info, cwds), a),
        call_ensures(PiCollector::plan_sidecars, (sidecars, info), b),
        call_ensures(PiCollector::plan_transcripts, (transcripts, sidecars, live, info, cwds), c),
    ensures
        a@ == planned(sessions@, live@, server, info@, cwds@),
        b.0@ == shown_claims(sidecars@, info@, sidecars@.len()),
        b.1@ == dropped_claims(sidecars@, info@, sidecars@.len()),
        c@ == shown_transcripts(transcripts@, sidecars@, live@, info@, cwds@, transcripts@.len()),
{
}

/// What kimi-code's files say is read: its index, its lock, its titles, its
/// configuration, and which sessions are current.
pub proof fn law_kimi_files_are_read<P: HostPolicy>(
    policy: &P,
    text: &str,
    listing: &Vec<WorkDir>,
    index: Vec<IndexEntry>,
    lock: Option<u32>,
    title: Option<String>,
    model: String,
    sessions: &Vec<KnownSession>,
    live: &Vec<String>,
    ids: Vec<String>,
    facts: RootFacts,
    is_root: bool,
)
    requires
        call_ensures(read_session_index, (Some(text), listing), index),
        call_ensures(read_server_lock_pid, (text,), lock),
        call_ensures(read_state_title::<P>, (policy, text), title),
        call_ensures(read_kimi_model, (Some(text),), model),
        call_ensures(current_session_ids, (sessions, live), ids),
        call_ensures(is_kimi_root, (facts,), is_root),
    ensures
        rows(index@) == session_rows(Some(text@), listing@),
        json_text(text@) is Some ==> lock == lock_pid(json_text(text@)->0),
        json_text(text@) is None ==> lock is None && title is None,
        json_text(text@) is Some ==> (title is Some <==> shown_title(
            *policy,
            json_text(text@)->0,
        ) is Some),
        json_text(text@) is Some && title is Some ==> title->0@ == shown_title(
            *policy,
            json_text(text@)->0,
        )->0,
        model@ == configured_model(Some(text@)),
        strs(ids@).no_duplicates(),
        forall|id: Seq<char>| #[trigger]
            strs(ids@).contains(id) <==> exists|i: int| #[trigger]
                is_current(sessions@, strs(live@), i) && sessions@[i].entry.session_id@ == id,
        is_root <==> facts.is_dir && facts.has_sessions,
{
}

/// What Pi's files say is read: its claims, its transcripts and their headers,
/// and the times in them.
pub proof fn law_pi_files_are_read(
    claims: &Vec<ClaimFile>,
    sidecars: Vec<Sidecar>,
    files: Vec<TranscriptFile>,
    found: Vec<TranscriptFile>,
    text: &str,
    path: &str,
    modified_ms: u64,
    header: Option<TranscriptHeader>,
    v: Option<&Json>,
    time: Option<u64>,
    sc: &Sidecar,
    info: &HashMap<u32, ProcInfo>,
    verified: bool,
)
    requires
        call_ensures(read_active_sidecars, (claims,), sidecars),
        call_ensures(discover_transcripts, (files,), found),
        call_ensures(read_transcript_header, (text, path, modified_ms), header),
        call_ensures(timestamp_ms, (v,), time),
        call_ensures(verify_sidecar, (sc, info), verified),
    ensures
        sidecars@.len() == file_claims(claims@).len(),
        forall|i: int|
            0 <= i < sidecars@.len() ==> (#[trigger] sidecars@[i])@ == file_claims(claims@)[i],
        crate::order::is_stable_sorting(transcripts_among(files@), found@),
        header is Some <==> transcript_header(text@, path@, modified_ms) is Some,
        header is Some ==> header->0@ == transcript_header(text@, path@, modified_ms)->0,
        v is Some ==> time == timestamp_value(Some(v->0@)),
        v is None ==> time is None,
        verified == holds(*sc, info@),
{
    let views = crate::pi::sidecar::claims(sidecars@);
    assert(views.len() == sidecars@.len());
    assert forall|i: int| 0 <= i < sidecars@.len() implies (#[trigger] sidecars@[i])@
        == file_claims(claims@)[i] by {
        assert(views[i] == sidecars@[i]@);
    }
}

/// What is known of sessions is taken out, put in and kept under their names.
pub proof fn law_caches_are_kept_by_name(
    caches: &mut SessionCaches,
    others: &mut SessionCaches,
    kept: &mut SessionCaches,
    id: &str,
    cache: crate::cache::SessionCache,
    taken: crate::cache::SessionCache,
    ids: &Vec<String>,
)
    requires
        call_ensures(SessionCaches::take, (caches, id), taken),
        call_ensures(SessionCaches::put, (others, id, cache), ()),
        call_ensures(SessionCaches::retain, (kept, ids), ()),
    ensures
        old(caches)@.contains_key(id@) ==> taken@ == old(caches)@[id@],
        final(caches)@ == old(caches)@.remove(id@),
        final(others)@ == old(others)@.insert(id@, cache@),
        forall|x: Seq<char>| #[trigger]
            final(kept)@.contains_key(x) <==> old(kept)@.contains_key(x) && strs(ids@).contains(x),
        forall|x: Seq<char>| #[trigger]
            final(kept)@.contains_key(x) ==> final(kept)@[x] == old(kept)@[x],
{
}

/// The place from which to go on reading is the one up to which the same file
/// was read, and its beginning where another was read or the file holds less.
pub proof fn law_reading_goes_on(
    kimi: &KimiCollector,
    pi: &PiCollector,
    id: &str,
    identity: (u64, u64),
    len: u64,
    a: u64,
    b: u64,
)
    requires
        call_ensures(KimiCollector::resume_offset, (kimi, id, identity, len), a),
        call_ensures(PiCollector::resume_offset, (pi, id, identity, len), b),
    ensures
        ({
            let c = known(kimi.cache@, id@);
            let d = known(pi.cache@, id@);
            &&& c.identity == identity && c.offset <= len ==> a == c.offset
            &&& c.identity != identity || len < c.offset ==> a == 0
            &&& d.identity == identity && d.offset <= len ==> b == d.offset
            &&& d.identity != identity || len < d.offset ==> b == 0
        }),
{
}

/// The text of a message, and what is shown of a call, are taken from the
/// document.
pub proof fn law_content_is_read<P: HostPolicy>(
    policy: &P,
    content: Option<&Json>,
    kinds: BlockKinds,
    text: String,
    kind: ToolKind,
    args: &Json,
    shown: (String, Option<String>),
)
    requires
        call_ensures(extract_text_from_content::<P>, (policy, content, kinds), text),
        call_ensures(parse_tool_args::<P>, (policy, kind, args), shown),
    ensures
        content is Some ==> text@ == shown_text(*policy, Some(content->0@), kinds),
        content is None ==> text@ == shown_text(*policy, None, kinds),
        shown.0@ == crate::content::shown_arg(*policy, kind, args@),
        shown.1 is Some <==> crate::content::file_arg(kind, args@) is Some,
        shown.1 is Some ==> shown.1->0@ == crate::content::file_arg(kind, args@)->0,
{
}

/// The answer to the query is read, and the rows are paired with the processes
/// in their order.
pub proof fn law_hermes_rows_are_read<P: HostPolicy>(
    policy: &P,
    answer: &str,
    r: Option<Vec<DbSession>>,
    collector: &HermesCollector,
    order: &Vec<u32>,
    cwds: &HashMap<u32, String>,
    shared: &SharedProcessData,
    now_ms: u64,
    paired: Vec<AgentSession>,
)
    requires
        call_ensures(query_sessions::<P>, (policy, answer), r),
        call_ensures(
            HermesCollector::pair_sessions,
            (collector, order, cwds, shared, now_ms),
            paired,
        ),
    ensures
        r is Some <==> answer_sessions(*policy, answer@) is Some,
        r is Some ==> row_views(r->0@) == answer_sessions(*policy, answer@)->0,
        crate::model::session_views(paired@) == reported(
            row_views(collector.cached_db_sessions@),
            order@,
            cwds@,
            *shared,
            now_ms,
            collector.home_dir@,
            collector.cached_db_sessions@.len(),
        ),
{
}

/// The places of files, versions and statuses are chosen by what is known of
/// them.
pub proof fn law_choices_are_made(
    named: bool,
    current: RootFacts,
    legacy: RootFacts,
    root: ConfigRoot,
    first: Option<&str>,
    second: Option<&str>,
    dir: Option<String>,
    agent: &str,
    version: &str,
    shown: String,
    pid: u32,
    cache: &SessionCache,
    shared: &SharedProcessData,
    now_ms: u64,
    status: SessionStatus,
)
    requires
        call_ensures(kimi_config_root, (named, current, legacy), root),
        call_ensures(pi_agent_dir, (first, second), dir),
        call_ensures(combine_version, (agent, Some(version)), shown),
        call_ensures(derive_status, (pid, false, cache, shared, now_ms), status),
    ensures
        root == root_choice(named, current, legacy),
        first is Some && first->0@.len() > 0 ==> dir is Some && dir->0@ == first->0@,
        (first is None || first->0@.len() == 0) && second is Some && second->0@.len() > 0
            ==> dir is Some && dir->0@ == second->0@,
        (first is None || first->0@.len() == 0) && (second is None || second->0@.len() == 0)
            ==> dir is None,
        agent@.len() > 0 && version@.len() > 0 ==> shown@ == agent@ + seq![' '] + version@,
        agent@.len() > 0 && version@.len() == 0 ==> shown@ == agent@,
        agent@.len() == 0 ==> shown@ == version@,
        status == SessionStatus::Unknown,
{
}

} // verus!
