//! What is reported of a session of kimi-code.
use crate::activity::no_delta;
use crate::cache::CacheView;
use crate::cache::LogFile;
use crate::cache::is_bounded;
use crate::json::JsonTree;
use crate::kimi::collector::kimi_session;
use crate::kimi::index::KnownSession;
use crate::kimi::wire::Wire;
use crate::kimi::wire::event_time;
use crate::laws::kimi_log::accesses;
use crate::laws::kimi_log::context_of;
use crate::laws::kimi_log::lemma_run_counts;
use crate::laws::kimi_log::lemma_run_lists;
use crate::laws::kimi_log::listed_of;
use crate::laws::kimi_log::model_of;
use crate::laws::kimi_log::opening_of;
use crate::laws::kimi_log::prompt_of;
use crate::laws::kimi_log::said_in;
use crate::laws::kimi_log::spent_of;
use crate::laws::kimi_log::task_of;
use crate::laws::kimi_log::tokens_of;
use crate::laws::kimi_log::turns_of;
use crate::laws::looks::earliest;
use crate::laws::looks::is_first_written;
use crate::laws::looks::is_given;
use crate::laws::looks::is_last_said;
use crate::laws::looks::lemma_earliest;
use crate::laws::looks::lemma_look;
use crate::laws::looks::lemma_newest;
use crate::laws::looks::lemma_said_after;
use crate::laws::looks::lemma_said_in_words;
use crate::laws::looks::new_events;
use crate::laws::looks::newest;
use crate::laws::looks::standing;
use crate::laws::looks::told;
use crate::laws::looks::total;
use crate::laws::pi_log::is_entry;
use crate::laws::process::law_work_below_is_a_loaded_process_below;
use crate::laws::process::runs_below;
use crate::model::ContextPercent;
use crate::model::SessionStatus;
use crate::model::SessionView;
use crate::policy::HostPolicy;
use crate::process::SharedProcessData;
use crate::tailing::look_fits;
use crate::tailing::looked;
use crate::tailing::run;
use vstd::prelude::*;

verus! {

/// Whether a look at the log of a session, of which `c` was known, can be taken
/// and reports the session as `view`.
pub open spec fn is_look<P: HostPolicy>(
    policy: P,
    c: CacheView,
    log: LogFile,
    view: SessionView,
) -> bool {
    &&& is_bounded(policy, c)
    &&& is_given(log)
    &&& look_fits::<P, Wire>(policy, c, Some(log))
    &&& exists|
        session: KnownSession,
        pid: u32,
        model_default: Seq<char>,
        shared: SharedProcessData,
        now_ms: u64,
        root: Seq<char>,
    |
        view == #[trigger] kimi_session(
            looked::<P, Wire>(policy, c, Some(log)),
            session,
            pid,
            model_default,
            shared,
            now_ms,
            root,
        )
}

/// The tokens of a reported session are the sums of what the usage
/// records of its log name: those that went in, those that came out, those read from
/// the cache and those written to it.
pub proof fn law_tokens_are_summed<P: HostPolicy>(
    policy: P,
    c: CacheView,
    log: LogFile,
    view: SessionView,
)
    requires
        is_look(policy, c, log, view),
    ensures
        ({
            let events = new_events(c, log);
            let before = standing(c, log);
            &&& view.total_input_tokens == before.total_input + total(
                events,
                |e: JsonTree| tokens_of(e, "inputOther"@),
            )
            &&& view.total_output_tokens == before.total_output + total(
                events,
                |e: JsonTree| tokens_of(e, "output"@),
            )
            &&& view.total_cache_read == before.total_cache_read + total(
                events,
                |e: JsonTree| tokens_of(e, "inputCacheRead"@),
            )
            &&& view.total_cache_create == before.total_cache_create + total(
                events,
                |e: JsonTree| tokens_of(e, "inputCacheCreation"@),
            )
        }),
{
    lemma_look::<P, Wire>(policy, c, log);
    lemma_run_counts(policy, new_events(c, log), standing(c, log).offset);
}

/// The turns of a reported session are as many as its log has.
pub proof fn law_turns_are_counted<P: HostPolicy>(
    policy: P,
    c: CacheView,
    log: LogFile,
    view: SessionView,
)
    requires
        is_look(policy, c, log, view),
    ensures
        ({
            let events = new_events(c, log);
            let before = standing(c, log);
            view.turn_count == before.turn_count + total(events, |e: JsonTree| turns_of(e))
        }),
{
    lemma_look::<P, Wire>(policy, c, log);
    lemma_run_counts(policy, new_events(c, log), standing(c, log).offset);
}

/// The model of a session is the one that its log named last; where it
/// names none, the one known before.
pub proof fn law_model_is_the_last_named<P: HostPolicy>(policy: P, c: CacheView, log: LogFile)
    requires
        is_bounded(policy, c),
        is_given(log),
        look_fits::<P, Wire>(policy, c, Some(log)),
    ensures
        is_last_said(
            new_events(c, log),
            |e: JsonTree| model_of(e),
            standing(c, log).model,
            looked::<P, Wire>(policy, c, Some(log)).model,
        ),
{
    let events = new_events(c, log);
    let before = standing(c, log);
    lemma_look::<P, Wire>(policy, c, log);
    lemma_run_counts(policy, events, before.offset);
    lemma_said_after(
        events,
        |e: JsonTree| model_of(e),
        before.model,
        run::<P, Wire>(policy, events, no_delta(before.offset)).model,
        looked::<P, Wire>(policy, c, Some(log)).model,
    );
}

/// The current task of a session is the tool that it called last.
pub proof fn law_task_is_the_last_call<P: HostPolicy>(policy: P, c: CacheView, log: LogFile)
    requires
        is_bounded(policy, c),
        is_given(log),
        look_fits::<P, Wire>(policy, c, Some(log)),
    ensures
        is_last_said(
            new_events(c, log),
            |e: JsonTree| task_of(policy, e),
            standing(c, log).current_task,
            looked::<P, Wire>(policy, c, Some(log)).current_task,
        ),
{
    let events = new_events(c, log);
    let before = standing(c, log);
    lemma_look::<P, Wire>(policy, c, log);
    lemma_run_counts(policy, events, before.offset);
    lemma_said_in_words(
        events,
        |e: JsonTree| task_of(policy, e),
        before.current_task,
        run::<P, Wire>(policy, events, no_delta(before.offset)).current_task,
        looked::<P, Wire>(policy, c, Some(log)).current_task,
    );
}

/// A session was active last at the latest of the times of its entries.
pub proof fn law_activity_is_the_latest_time<P: HostPolicy>(policy: P, c: CacheView, log: LogFile)
    requires
        is_bounded(policy, c),
        is_given(log),
        look_fits::<P, Wire>(policy, c, Some(log)),
    ensures
        ({
            let events = new_events(c, log);
            let before = standing(c, log).last_activity;
            let after = looked::<P, Wire>(policy, c, Some(log)).last_activity;
            &&& before is Some ==> after is Some && before->0 <= after->0
            &&& forall|k: int|
                #![trigger events[k]]
                0 <= k < events.len() && event_time(
                    events[k].get("time"@),
                ) is Some ==> after is Some && event_time(events[k].get("time"@))->0
                    <= after->0
            &&& after is Some ==> after == before || exists|k: int|
                #![trigger events[k]]
                0 <= k < events.len() && event_time(events[k].get("time"@)) == after
        }),
{
    lemma_look::<P, Wire>(policy, c, log);
    lemma_run_counts(policy, new_events(c, log), standing(c, log).offset);
}

/// The conversation of a session is what was said in its log, in order,
/// the newest messages of it.
pub proof fn law_conversation_is_what_was_said<P: HostPolicy>(
    policy: P,
    c: CacheView,
    log: LogFile,
    view: SessionView,
)
    requires
        is_look(policy, c, log, view),
    ensures
        view.chat_messages == newest(
            standing(c, log).chat_messages + told(
                new_events(c, log),
                |e: JsonTree| said_in(policy, e),
            ),
            policy.chat_limit(),
        ),
        is_first_written(
            new_events(c, log),
            |e: JsonTree| opening_of(policy, e),
            view.first_assistant_text,
        ) || (standing(c, log).first_assistant_text.len() > 0 && view.first_assistant_text
            == standing(c, log).first_assistant_text),
        standing(c, log).first_assistant_text.len() > 0 ==> view.first_assistant_text == standing(
            c,
            log,
        ).first_assistant_text,
{
    let events = new_events(c, log);
    let before = standing(c, log);
    let n = policy.chat_limit();
    let said = told(events, |e: JsonTree| said_in(policy, e));
    lemma_look::<P, Wire>(policy, c, log);
    lemma_run_lists(policy, events, before.offset);
    let d = run::<P, Wire>(policy, events, no_delta(before.offset));
    lemma_newest(before.chat_messages, d.chat_messages, n);
    lemma_newest(before.chat_messages, said, n);
    let all = before.chat_messages + d.chat_messages;
    assert(view.chat_messages =~= newest(all, n));
}

/// A session begins with the first prompt of its log.
pub proof fn law_prompt_is_the_first<P: HostPolicy>(policy: P, c: CacheView, log: LogFile)
    requires
        is_bounded(policy, c),
        is_given(log),
        look_fits::<P, Wire>(policy, c, Some(log)),
    ensures
        ({
            let before = standing(c, log).initial_prompt;
            let after = looked::<P, Wire>(policy, c, Some(log)).initial_prompt;
            &&& before.len() > 0 ==> after == before
            &&& before.len() == 0 ==> is_first_written(
                new_events(c, log),
                |e: JsonTree| prompt_of(policy, e),
                after,
            )
        }),
{
    lemma_look::<P, Wire>(policy, c, log);
    lemma_run_lists(policy, new_events(c, log), standing(c, log).offset);
}

/// The calls that are listed are those of the log, in order: the newest
/// of them, where a look takes over no more than its first 500.
pub proof fn law_calls_are_listed<P: HostPolicy>(
    policy: P,
    c: CacheView,
    log: LogFile,
    view: SessionView,
)
    requires
        is_look(policy, c, log, view),
    ensures
        view.tool_calls == newest(
            standing(c, log).tool_calls + earliest(
                told(new_events(c, log), |e: JsonTree| listed_of(policy, e)),
                500,
            ),
            500,
        ),
{
    let events = new_events(c, log);
    let before = standing(c, log);
    lemma_look::<P, Wire>(policy, c, log);
    lemma_run_lists(policy, events, before.offset);
    let calls = told(events, |e: JsonTree| listed_of(policy, e));
    let all = before.tool_calls + earliest(calls, 500);
    lemma_earliest(calls, Seq::empty(), 500);
    assert(view.tool_calls =~= newest(all, 500));
}

/// The files that are listed are those that the calls of the log touch,
/// in order, the newest of them.
pub proof fn law_files_are_listed<P: HostPolicy>(
    policy: P,
    c: CacheView,
    log: LogFile,
    view: SessionView,
)
    requires
        is_look(policy, c, log, view),
    ensures
        view.file_accesses == newest(
            standing(c, log).file_accesses + accesses(new_events(c, log)),
            policy.file_limit(),
        ),
{
    let events = new_events(c, log);
    let before = standing(c, log);
    lemma_look::<P, Wire>(policy, c, log);
    lemma_run_lists(policy, events, before.offset);
    let all = before.file_accesses + accesses(events);
    assert(view.file_accesses =~= newest(all, policy.file_limit()));
}

/// The history of tokens has one entry for each usage record that names its
/// tokens, all of them together.
pub proof fn law_history_follows_the_records<P: HostPolicy>(
    policy: P,
    c: CacheView,
    log: LogFile,
    view: SessionView,
)
    requires
        is_look(policy, c, log, view),
    ensures
        ({
            let wide = |n: u64| n as int;
            let spent = told(new_events(c, log), |e: JsonTree| spent_of(e));
            view.token_history.map_values(wide) == newest(
                standing(c, log).token_history.map_values(wide) + earliest(spent, 10_000),
                10_000,
            )
        }),
{
    let events = new_events(c, log);
    let before = standing(c, log);
    let wide = |n: u64| n as int;
    let spent = told(events, |e: JsonTree| spent_of(e));
    lemma_look::<P, Wire>(policy, c, log);
    lemma_run_lists(policy, events, before.offset);
    let d = run::<P, Wire>(policy, events, no_delta(before.offset));
    let few = earliest(spent, 10_000);
    assert((before.token_history + d.token_history).map_values(wide)
        =~= before.token_history.map_values(wide) + few);
    if spent.len() == 0 {
        assert(d.token_history =~= Seq::empty());
        assert(before.token_history + d.token_history =~= before.token_history);
    }
    assert(view.token_history.map_values(wide) =~= newest(
        before.token_history.map_values(wide) + few,
        10_000,
    ));
}

/// The tokens in use that a session is shown with are those that went into the
/// turn of the last usage record that names its tokens: read from the cache,
/// written to it or neither. The window is that of the model. Where no record
/// of the look names its tokens they are 0, and where it has no record, those
/// known before. A look with a record adds them to the history.
pub proof fn law_context_is_that_of_the_last_record<P: HostPolicy>(
    policy: P,
    c: CacheView,
    log: LogFile,
    view: SessionView,
)
    requires
        is_look(policy, c, log, view),
    ensures
        view.context_percent matches ContextPercent::Tokens { used, window } && window == 262_144
            && view.context_window == 262_144 && ({
            let events = new_events(c, log);
            let recorded = exists|k: int|
                0 <= k < events.len() && is_entry(#[trigger] events[k], "usage.record"@);
            &&& recorded ==> is_last_said(events, |e: JsonTree| context_of(e), 0, used as int)
            &&& !recorded ==> used == standing(c, log).context_tokens
            &&& recorded ==> view.context_history == newest(
                standing(c, log).context_history.push(used),
                10_000,
            )
            &&& !recorded ==> view.context_history == standing(c, log).context_history
        }),
{
    let events = new_events(c, log);
    let before = standing(c, log);
    lemma_look::<P, Wire>(policy, c, log);
    lemma_run_counts(policy, events, before.offset);
    let d = run::<P, Wire>(policy, events, no_delta(before.offset));
    if d.saw_usage {
        assert(view.context_history =~= newest(
            before.context_history.push(d.context_tokens),
            10_000,
        ));
    }
}

/// A session is reported with the model that is known of it, or else with the
/// configured one; with its title, or else with its first prompt; with what
/// its log told of it, under the name of the agent, the process, the directory
/// and the time that are its own.
pub proof fn law_report_shows_what_is_known(
    c: CacheView,
    session: KnownSession,
    pid: u32,
    model_default: Seq<char>,
    shared: SharedProcessData,
    now_ms: u64,
    root: Seq<char>,
)
    ensures
        ({
            let v = kimi_session(c, session, pid, model_default, shared, now_ms, root);
            &&& v.agent_cli == "kimi"@
            &&& v.pid == pid
            &&& v.session_id == session.entry.session_id@
            &&& v.cwd == session.entry.work_dir@
            &&& v.config_root == root
            &&& session.wire_mtime_ms is Some ==> v.started_at == session.wire_mtime_ms->0
            &&& session.wire_mtime_ms is None ==> v.started_at == 0
            &&& c.model.len() > 0 ==> v.model == c.model
            &&& c.model.len() == 0 ==> v.model == model_default
            &&& session.title@.len() > 0 ==> v.initial_prompt == session.title@
            &&& session.title@.len() == 0 ==> v.initial_prompt == c.initial_prompt
            &&& c.current_task.len() > 0 ==> v.current_tasks == seq![c.current_task]
            &&& c.current_task.len() == 0 ==> v.current_tasks == seq![
                if v.status == SessionStatus::Waiting {
                    "waiting for input"@
                } else {
                    "thinking..."@
                },
            ]
            &&& v.mem_mb == crate::report::memory_mb(shared.process_info@, pid)
            &&& v.children == crate::process::children_view(pid, shared)
            &&& v.project_name == crate::process::project_of(session.entry.work_dir@)
            &&& v.compaction_count == 0
            &&& v.effort.len() == 0 && v.version.len() == 0 && v.git_branch.len() == 0
            &&& v.git_added == 0 && v.git_modified == 0
            &&& v.subagents.len() == 0 && v.mem_file_count == 0 && v.mem_line_count == 0
            &&& v.pending_since_ms == 0 && v.thinking_since_ms == 0
        }),
{
}

/// A session is at work where a tool is called, or a process below its own, at
/// any distance, has a load over five percent. Otherwise it thinks where it was
/// active within the last thirty seconds, and else waits.
pub proof fn law_status_tells_what_runs(
    c: CacheView,
    session: KnownSession,
    pid: u32,
    model_default: Seq<char>,
    shared: SharedProcessData,
    now_ms: u64,
    root: Seq<char>,
)
    ensures
        ({
            let info = shared.process_info@;
            let loaded = exists|k: u32|
                #![trigger info.contains_key(k)]
                info.contains_key(k) && info[k].cpu_millis > 5_000 && runs_below(
                    shared.children_map@,
                    pid,
                    k,
                );
            let status = kimi_session(
                c,
                session,
                pid,
                model_default,
                shared,
                now_ms,
                root,
            ).status;
            &&& status == SessionStatus::Executing <==> loaded || c.current_task.len() > 0
            &&& status == SessionStatus::Thinking <==> !loaded && c.current_task.len() == 0
                && c.last_activity is Some && 0 <= now_ms - c.last_activity->0 < 30_000
            &&& status != SessionStatus::Unknown
        }),
{
    law_work_below_is_a_loaded_process_below(
        pid,
        shared.children_map@,
        shared.process_info@,
        5_000,
    );
}

} // verus!
