//! What is reported of a session of Pi.
use crate::activity::no_delta;
use crate::cache::CacheView;
use crate::cache::LogFile;
use crate::cache::is_bounded;
use crate::json::JsonTree;
use crate::laws::looks::earliest;
use crate::laws::looks::is_first_written;
use crate::laws::looks::is_given;
use crate::laws::looks::is_last_said;
use crate::laws::looks::lemma_earliest;
use crate::laws::looks::lemma_look;
use crate::laws::looks::lemma_newest;
use crate::laws::looks::lemma_said_after;
use crate::laws::looks::lemma_said_in_words;
use crate::laws::looks::new_events;
use crate::laws::looks::newest;
use crate::laws::looks::opt;
use crate::laws::looks::standing;
use crate::laws::looks::told;
use crate::laws::looks::total;
use crate::laws::pi_log::accesses;
use crate::laws::pi_log::compactions_of;
use crate::laws::pi_log::context_of;
use crate::laws::pi_log::effort_of;
use crate::laws::pi_log::lemma_run_counts;
use crate::laws::pi_log::lemma_run_lists;
use crate::laws::pi_log::listed_of;
use crate::laws::pi_log::model_of;
use crate::laws::pi_log::opening_of;
use crate::laws::pi_log::prompt_of;
use crate::laws::pi_log::said_in;
use crate::laws::pi_log::spent_of;
use crate::laws::pi_log::task_of;
use crate::laws::pi_log::tokens_of;
use crate::laws::pi_log::turns_of;
use crate::laws::process::law_work_below_is_a_loaded_process_below;
use crate::laws::process::runs_below;
use crate::model::ContextPercent;
use crate::model::SessionStatus;
use crate::model::SessionView;
use crate::pi::collector::sidecar_session;
use crate::pi::collector::transcript_session;
use crate::pi::discovery::HeaderView;
use crate::pi::discovery::header_in;
use crate::pi::sidecar::Sidecar;
use crate::pi::sidecar::SidecarView;
use crate::pi::sidecar::holds;
use crate::pi::sidecar::sidecar_in;
use crate::pi::transcript::Transcript;
use crate::policy::HostPolicy;
use crate::process::ProcInfo;
use crate::process::SharedProcessData;
use crate::process::children_view;
use crate::process::project_of;
use crate::report::memory_mb;
use crate::tailing::look_fits;
use crate::tailing::looked;
use crate::tailing::run;
use crate::timestamp::timestamp_value;
use vstd::prelude::*;

verus! {

/// Whether a session of which `c` is known is reported as `view`, by a claim or
/// by its transcript alone.
pub open spec fn is_reported_as(
    c: CacheView,
    shared: SharedProcessData,
    now_ms: u64,
    root: Seq<char>,
    view: SessionView,
) -> bool {
    ||| exists|claim: SidecarView, verified: bool|
        view == #[trigger] sidecar_session(c, claim, verified, shared, now_ms, root)
    ||| exists|h: HeaderView, pid: u32, unknown: bool|
        view == #[trigger] transcript_session(c, h, pid, unknown, shared, now_ms, root)
}

/// Whether a look at a transcript, of whose session `c` was known, can be taken
/// and reports the session as `view`.
pub open spec fn is_look<P: HostPolicy>(
    policy: P,
    c: CacheView,
    log: LogFile,
    shared: SharedProcessData,
    now_ms: u64,
    root: Seq<char>,
    view: SessionView,
) -> bool {
    &&& is_bounded(policy, c)
    &&& is_given(log)
    &&& look_fits::<P, Transcript>(policy, c, Some(log))
    &&& is_reported_as(
        looked::<P, Transcript>(policy, c, Some(log)),
        shared,
        now_ms,
        root,
        view,
    )
}

/// The tokens of a reported session are the sums of what the turns of its
/// transcript name: those that went in, those that came out, those read from
/// the cache and those written to it.
pub proof fn law_tokens_are_summed<P: HostPolicy>(
    policy: P,
    c: CacheView,
    log: LogFile,
    shared: SharedProcessData,
    now_ms: u64,
    root: Seq<char>,
    view: SessionView,
)
    requires
        is_look(policy, c, log, shared, now_ms, root, view),
    ensures
        ({
            let events = new_events(c, log);
            let before = standing(c, log);
            &&& view.total_input_tokens == before.total_input + total(
                events,
                |e: JsonTree| tokens_of(e, "input"@),
            )
            &&& view.total_output_tokens == before.total_output + total(
                events,
                |e: JsonTree| tokens_of(e, "output"@),
            )
            &&& view.total_cache_read == before.total_cache_read + total(
                events,
                |e: JsonTree| tokens_of(e, "cacheRead"@),
            )
            &&& view.total_cache_create == before.total_cache_create + total(
                events,
                |e: JsonTree| tokens_of(e, "cacheWrite"@),
            )
        }),
{
    lemma_look::<P, Transcript>(policy, c, log);
    lemma_run_counts(policy, new_events(c, log), standing(c, log).offset);
}

/// The turns and the compactions of a reported session are as many as its
/// transcript has.
pub proof fn law_turns_are_counted<P: HostPolicy>(
    policy: P,
    c: CacheView,
    log: LogFile,
    shared: SharedProcessData,
    now_ms: u64,
    root: Seq<char>,
    view: SessionView,
)
    requires
        is_look(policy, c, log, shared, now_ms, root, view),
    ensures
        ({
            let events = new_events(c, log);
            let before = standing(c, log);
            &&& view.turn_count == before.turn_count + total(events, |e: JsonTree| turns_of(e))
            &&& view.compaction_count == before.compaction_count + total(
                events,
                |e: JsonTree| compactions_of(e),
            )
        }),
{
    lemma_look::<P, Transcript>(policy, c, log);
    lemma_run_counts(policy, new_events(c, log), standing(c, log).offset);
}

/// The model of a session is the one that its transcript named last; where it
/// names none, the one known before.
pub proof fn law_model_is_the_last_named<P: HostPolicy>(policy: P, c: CacheView, log: LogFile)
    requires
        is_bounded(policy, c),
        is_given(log),
        look_fits::<P, Transcript>(policy, c, Some(log)),
    ensures
        is_last_said(
            new_events(c, log),
            |e: JsonTree| model_of(e),
            standing(c, log).model,
            looked::<P, Transcript>(policy, c, Some(log)).model,
        ),
{
    let events = new_events(c, log);
    let before = standing(c, log);
    lemma_look::<P, Transcript>(policy, c, log);
    lemma_run_counts(policy, events, before.offset);
    lemma_said_after(
        events,
        |e: JsonTree| model_of(e),
        before.model,
        run::<P, Transcript>(policy, events, no_delta(before.offset)).model,
        looked::<P, Transcript>(policy, c, Some(log)).model,
    );
}

/// A session is reported with the model that is known of it, or else with the
/// one that its claim names; with the effort, the first words, the messages,
/// the calls, the accesses and the histories that are known of it.
pub proof fn law_report_shows_what_is_known(
    c: CacheView,
    claim: SidecarView,
    verified: bool,
    h: HeaderView,
    pid: u32,
    unknown: bool,
    shared: SharedProcessData,
    now_ms: u64,
    root: Seq<char>,
)
    ensures
        ({
            let a = sidecar_session(c, claim, verified, shared, now_ms, root);
            let b = transcript_session(c, h, pid, unknown, shared, now_ms, root);
            &&& b.model == c.model
            &&& c.model.len() > 0 ==> a.model == c.model
            &&& c.model.len() == 0 && claim.model is Some ==> a.model == claim.model->0
            &&& c.model.len() == 0 && claim.model is None ==> a.model.len() == 0
            &&& a.effort == c.effort && b.effort == c.effort
            &&& a.first_assistant_text == c.first_assistant_text && b.first_assistant_text
                == c.first_assistant_text
            &&& a.chat_messages == c.chat_messages && b.chat_messages == c.chat_messages
            &&& a.tool_calls == c.tool_calls && b.tool_calls == c.tool_calls
            &&& a.file_accesses == c.file_accesses && b.file_accesses == c.file_accesses
            &&& a.token_history == c.token_history && b.token_history == c.token_history
            &&& a.context_history == c.context_history && b.context_history == c.context_history
            &&& b.initial_prompt == c.initial_prompt
            &&& claim.title is Some ==> a.initial_prompt == claim.title->0
            &&& claim.title is None ==> a.initial_prompt == c.initial_prompt
        }),
{
}

/// The reasoning effort of a session is the one that its transcript set last.
pub proof fn law_effort_is_the_last_set<P: HostPolicy>(
    policy: P,
    c: CacheView,
    log: LogFile,
    shared: SharedProcessData,
    now_ms: u64,
    root: Seq<char>,
    view: SessionView,
)
    requires
        is_look(policy, c, log, shared, now_ms, root, view),
    ensures
        is_last_said(
            new_events(c, log),
            |e: JsonTree| effort_of(e),
            standing(c, log).effort,
            view.effort,
        ),
{
    let events = new_events(c, log);
    let before = standing(c, log);
    lemma_look::<P, Transcript>(policy, c, log);
    lemma_run_counts(policy, events, before.offset);
    lemma_said_after(
        events,
        |e: JsonTree| effort_of(e),
        before.effort,
        run::<P, Transcript>(policy, events, no_delta(before.offset)).effort,
        looked::<P, Transcript>(policy, c, Some(log)).effort,
    );
}

/// The current task of a session is the tool that it called last.
pub proof fn law_task_is_the_last_call<P: HostPolicy>(policy: P, c: CacheView, log: LogFile)
    requires
        is_bounded(policy, c),
        is_given(log),
        look_fits::<P, Transcript>(policy, c, Some(log)),
    ensures
        is_last_said(
            new_events(c, log),
            |e: JsonTree| task_of(policy, e),
            standing(c, log).current_task,
            looked::<P, Transcript>(policy, c, Some(log)).current_task,
        ),
{
    let events = new_events(c, log);
    let before = standing(c, log);
    lemma_look::<P, Transcript>(policy, c, log);
    lemma_run_counts(policy, events, before.offset);
    lemma_said_in_words(
        events,
        |e: JsonTree| task_of(policy, e),
        before.current_task,
        run::<P, Transcript>(policy, events, no_delta(before.offset)).current_task,
        looked::<P, Transcript>(policy, c, Some(log)).current_task,
    );
}

/// A session was active last at the latest of the times of its entries.
pub proof fn law_activity_is_the_latest_time<P: HostPolicy>(policy: P, c: CacheView, log: LogFile)
    requires
        is_bounded(policy, c),
        is_given(log),
        look_fits::<P, Transcript>(policy, c, Some(log)),
    ensures
        ({
            let events = new_events(c, log);
            let before = standing(c, log).last_activity;
            let after = looked::<P, Transcript>(policy, c, Some(log)).last_activity;
            &&& before is Some ==> after is Some && before->0 <= after->0
            &&& forall|k: int|
                #![trigger events[k]]
                0 <= k < events.len() && timestamp_value(
                    events[k].get("timestamp"@),
                ) is Some ==> after is Some && timestamp_value(events[k].get("timestamp"@))->0
                    <= after->0
            &&& after is Some ==> after == before || exists|k: int|
                #![trigger events[k]]
                0 <= k < events.len() && timestamp_value(events[k].get("timestamp"@)) == after
        }),
{
    lemma_look::<P, Transcript>(policy, c, log);
    lemma_run_counts(policy, new_events(c, log), standing(c, log).offset);
}

/// The conversation of a session is what was said in its transcript, in order,
/// the newest messages of it.
pub proof fn law_conversation_is_what_was_said<P: HostPolicy>(
    policy: P,
    c: CacheView,
    log: LogFile,
    shared: SharedProcessData,
    now_ms: u64,
    root: Seq<char>,
    view: SessionView,
)
    requires
        is_look(policy, c, log, shared, now_ms, root, view),
    ensures
        view.chat_messages == newest(
            standing(c, log).chat_messages + told(
                new_events(c, log),
                |e: JsonTree| said_in(policy, e),
            ),
            policy.chat_limit(),
        ),
        is_first_written(
            new_events(c, log),
            |e: JsonTree| opening_of(policy, e),
            view.first_assistant_text,
        ) || (standing(c, log).first_assistant_text.len() > 0 && view.first_assistant_text
            == standing(c, log).first_assistant_text),
        standing(c, log).first_assistant_text.len() > 0 ==> view.first_assistant_text == standing(
            c,
            log,
        ).first_assistant_text,
{
    let events = new_events(c, log);
    let before = standing(c, log);
    let n = policy.chat_limit();
    let said = told(events, |e: JsonTree| said_in(policy, e));
    lemma_look::<P, Transcript>(policy, c, log);
    lemma_run_lists(policy, events, before.offset);
    let d = run::<P, Transcript>(policy, events, no_delta(before.offset));
    lemma_newest(before.chat_messages, d.chat_messages, n);
    lemma_newest(before.chat_messages, said, n);
    let all = before.chat_messages + d.chat_messages;
    assert(view.chat_messages =~= newest(all, n));
}

/// A session begins with the first prompt of its transcript.
pub proof fn law_prompt_is_the_first<P: HostPolicy>(policy: P, c: CacheView, log: LogFile)
    requires
        is_bounded(policy, c),
        is_given(log),
        look_fits::<P, Transcript>(policy, c, Some(log)),
    ensures
        ({
            let before = standing(c, log).initial_prompt;
            let after = looked::<P, Transcript>(policy, c, Some(log)).initial_prompt;
            &&& before.len() > 0 ==> after == before
            &&& before.len() == 0 ==> is_first_written(
                new_events(c, log),
                |e: JsonTree| prompt_of(policy, e),
                after,
            )
        }),
{
    lemma_look::<P, Transcript>(policy, c, log);
    lemma_run_lists(policy, new_events(c, log), standing(c, log).offset);
}

/// The calls that are listed are those of the transcript, in order: the newest
/// of them, where a look takes over no more than its first 500.
pub proof fn law_calls_are_listed<P: HostPolicy>(
    policy: P,
    c: CacheView,
    log: LogFile,
    shared: SharedProcessData,
    now_ms: u64,
    root: Seq<char>,
    view: SessionView,
)
    requires
        is_look(policy, c, log, shared, now_ms, root, view),
    ensures
        view.tool_calls == newest(
            standing(c, log).tool_calls + earliest(
                told(new_events(c, log), |e: JsonTree| listed_of(policy, e)),
                500,
            ),
            500,
        ),
{
    let events = new_events(c, log);
    let before = standing(c, log);
    lemma_look::<P, Transcript>(policy, c, log);
    lemma_run_lists(policy, events, before.offset);
    let calls = told(events, |e: JsonTree| listed_of(policy, e));
    let all = before.tool_calls + earliest(calls, 500);
    lemma_earliest(calls, Seq::empty(), 500);
    assert(view.tool_calls =~= newest(all, 500));
}

/// The files that are listed are those that the calls of the transcript touch,
/// in order, the newest of them.
pub proof fn law_files_are_listed<P: HostPolicy>(
    policy: P,
    c: CacheView,
    log: LogFile,
    shared: SharedProcessData,
    now_ms: u64,
    root: Seq<char>,
    view: SessionView,
)
    requires
        is_look(policy, c, log, shared, now_ms, root, view),
    ensures
        view.file_accesses == newest(
            standing(c, log).file_accesses + accesses(new_events(c, log)),
            policy.file_limit(),
        ),
{
    let events = new_events(c, log);
    let before = standing(c, log);
    lemma_look::<P, Transcript>(policy, c, log);
    lemma_run_lists(policy, events, before.offset);
    let all = before.file_accesses + accesses(events);
    assert(view.file_accesses =~= newest(all, policy.file_limit()));
}

/// The history of tokens has one entry for each turn that names its tokens,
/// all of them together; that of the context window one for each look, the
/// tokens that went into the last such turn.
pub proof fn law_histories_follow_the_turns<P: HostPolicy>(
    policy: P,
    c: CacheView,
    log: LogFile,
    shared: SharedProcessData,
    now_ms: u64,
    root: Seq<char>,
    view: SessionView,
)
    requires
        is_look(policy, c, log, shared, now_ms, root, view),
    ensures
        ({
            let events = new_events(c, log);
            let before = standing(c, log);
            let wide = |n: u64| n as int;
            let spent = told(events, |e: JsonTree| spent_of(e));
            &&& view.token_history.map_values(wide) == newest(
                before.token_history.map_values(wide) + earliest(spent, 10_000),
                10_000,
            )
            &&& spent.len() == 0 ==> view.context_history == before.context_history
            &&& spent.len() > 0 ==> view.context_history.len() > 0 && is_last_said(
                events,
                |e: JsonTree| opt(context_of(e)),
                None,
                Some(view.context_history.last() as int),
            ) && view.context_history == newest(
                before.context_history.push(view.context_history.last()),
                10_000,
            )
        }),
{
    let events = new_events(c, log);
    let before = standing(c, log);
    let wide = |n: u64| n as int;
    let spent = told(events, |e: JsonTree| spent_of(e));
    lemma_look::<P, Transcript>(policy, c, log);
    lemma_run_lists(policy, events, before.offset);
    lemma_run_counts(policy, events, before.offset);
    let d = run::<P, Transcript>(policy, events, no_delta(before.offset));
    let few = earliest(spent, 10_000);
    assert((before.token_history + d.token_history).map_values(wide)
        =~= before.token_history.map_values(wide) + few);
    if spent.len() == 0 {
        assert(d.token_history =~= Seq::empty());
        assert(before.token_history + d.token_history =~= before.token_history);
    }
    assert(view.token_history.map_values(wide) =~= newest(
        before.token_history.map_values(wide) + few,
        10_000,
    ));
    if spent.len() > 0 {
        assert(view.context_history.last() == d.context_tokens);
        assert(view.context_history =~= newest(
            before.context_history.push(view.context_history.last()),
            10_000,
        ));
    }
}

/// A document claims a session where it names the session, its directory and
/// its file; what is reported of the session follows the members of the
/// document.
pub proof fn law_claim_is_reported(
    doc: JsonTree,
    c: CacheView,
    verified: bool,
    shared: SharedProcessData,
    now_ms: u64,
    root: Seq<char>,
)
    ensures
        sidecar_in(doc) is Some <==> doc.get_str("sessionId"@) is Some && doc.get_str(
            "cwd"@,
        ) is Some && doc.get_str("sessionFile"@) is Some,
        sidecar_in(doc) is Some ==> ({
            let claim = sidecar_in(doc)->0;
            let v = sidecar_session(c, claim, verified, shared, now_ms, root);
            &&& Some(claim.session_file) == doc.get_str("sessionFile"@)
            &&& claim.proc_start == doc.get_u64("procStart"@)
            &&& claim.title == doc.get_str("title"@)
            &&& claim.model == doc.get_str("model"@)
            &&& v.agent_cli == "pi"@
            &&& Some(v.session_id) == doc.get_str("sessionId"@)
            &&& Some(v.cwd) == doc.get_str("cwd"@)
            &&& v.project_name == project_of(v.cwd)
            &&& v.config_root == root
            &&& doc.get_u64("pid"@) is Some && doc.get_u64("pid"@)->0 <= 0xffff_ffff
                ==> v.pid == doc.get_u64("pid"@)->0
            &&& doc.get_u64("pid"@) is None || doc.get_u64("pid"@)->0 > 0xffff_ffff ==> v.pid == 0
            &&& doc.get_u64("startedAt"@) is Some ==> v.started_at == doc.get_u64("startedAt"@)->0
            &&& doc.get_u64("startedAt"@) is None ==> v.started_at == 0
            &&& doc.get_u64("contextWindow"@) is Some ==> v.context_window == doc.get_u64(
                "contextWindow"@,
            )->0
            &&& doc.get_u64("contextWindow"@) is None ==> v.context_window == 0
            &&& match doc.get("contextPercent"@) {
                Some(JsonTree::Number(n)) => v.context_percent == ContextPercent::Reported {
                    bits: n.bits,
                },
                _ => v.context_percent == ContextPercent::NotKnown,
            }
            &&& v.mem_mb == memory_mb(shared.process_info@, v.pid)
            &&& v.children == children_view(v.pid, shared)
            &&& v.git_branch.len() == 0 && v.git_added == 0 && v.git_modified == 0
            &&& v.subagents.len() == 0 && v.mem_file_count == 0 && v.mem_line_count == 0
            &&& v.pending_since_ms == 0 && v.thinking_since_ms == 0
        }),
{
}

/// The version that is shown of a claimed session is that of the agent, behind
/// its name; what is empty or not known is left out.
pub proof fn law_version_names_the_agent(
    claim: SidecarView,
    c: CacheView,
    verified: bool,
    shared: SharedProcessData,
    now_ms: u64,
    root: Seq<char>,
)
    ensures
        ({
            let shown = sidecar_session(c, claim, verified, shared, now_ms, root).version;
            let version = match claim.version {
                Some(v) => v,
                None => Seq::empty(),
            };
            &&& claim.agent.len() > 0 && version.len() > 0 ==> shown == claim.agent + seq![' ']
                + version
            &&& claim.agent.len() == 0 ==> shown == version
            &&& version.len() == 0 ==> shown == claim.agent
        }),
{
    if claim.agent.len() == 0 {
        assert(claim.agent =~= Seq::empty());
    }
    if claim.version is Some && claim.version->0.len() == 0 {
        assert(claim.version->0 =~= Seq::empty());
    }
}

/// An agent that a claim does not name is `pi`.
pub proof fn law_unnamed_agent_is_pi(doc: JsonTree)
    requires
        sidecar_in(doc) is Some,
    ensures
        doc.get_str("agent"@) is Some ==> sidecar_in(doc)->0.agent == doc.get_str("agent"@)->0,
        doc.get_str("agent"@) is None ==> sidecar_in(doc)->0.agent == "pi"@,
        sidecar_in(doc)->0.version == doc.get_str("version"@),
{
}

/// A claim holds where its process is there, unless both say when it started
/// and do not agree.
pub proof fn law_claim_holds_for_its_process(s: Sidecar, info: Map<u32, ProcInfo>)
    ensures
        !info.contains_key(s.pid) ==> !holds(s, info),
        info.contains_key(s.pid) && s.proc_start is Some && s.proc_start->0 != 0
            && info[s.pid].start_ticks != 0 ==> (holds(s, info) <==> s.proc_start == Some(
            info[s.pid].start_ticks,
        )),
        info.contains_key(s.pid) && (s.proc_start is None || s.proc_start == Some(0u64)
            || info[s.pid].start_ticks == 0) ==> holds(s, info),
{
}

/// A session that no claim names is reported by the header of its transcript.
pub proof fn law_header_is_reported(
    doc: JsonTree,
    path: Seq<char>,
    modified_ms: u64,
    c: CacheView,
    pid: u32,
    unknown: bool,
    shared: SharedProcessData,
    now_ms: u64,
    root: Seq<char>,
)
    ensures
        header_in(doc, path, modified_ms) is Some <==> doc.get_str("id"@) is Some,
        header_in(doc, path, modified_ms) is Some ==> ({
            let h = header_in(doc, path, modified_ms)->0;
            let v = transcript_session(c, h, pid, unknown, shared, now_ms, root);
            &&& h.path == path
            &&& v.agent_cli == "pi"@
            &&& v.pid == pid
            &&& Some(v.session_id) == doc.get_str("id"@)
            &&& doc.get_str("cwd"@) is Some ==> v.cwd == doc.get_str("cwd"@)->0
            &&& doc.get_str("cwd"@) is None ==> v.cwd.len() == 0
            &&& v.project_name == project_of(v.cwd)
            &&& v.config_root == root
            &&& timestamp_value(doc.get("timestamp"@)) is Some ==> Some(v.started_at)
                == timestamp_value(doc.get("timestamp"@))
            &&& timestamp_value(doc.get("timestamp"@)) is None ==> v.started_at == modified_ms
            &&& v.context_percent == ContextPercent::NotKnown && v.context_window == 0
            &&& v.version.len() == 0
            &&& v.mem_mb == memory_mb(shared.process_info@, pid)
            &&& pid != 0 ==> v.children == children_view(pid, shared)
            &&& pid == 0 ==> v.children.len() == 0
            &&& v.git_branch.len() == 0 && v.git_added == 0 && v.git_modified == 0
            &&& v.subagents.len() == 0 && v.mem_file_count == 0 && v.mem_line_count == 0
            &&& v.pending_since_ms == 0 && v.thinking_since_ms == 0
        }),
{
}

/// What nobody confirms is of unknown status. Where a process is confirmed, the
/// session is at work where a process below it, at any distance, has a load
/// over five percent, or a tool was called and the session was active within
/// the last thirty seconds; it thinks where it was active so without a tool,
/// and else waits.
pub proof fn law_status_tells_what_runs(
    c: CacheView,
    claim: SidecarView,
    verified: bool,
    h: HeaderView,
    pid: u32,
    shared: SharedProcessData,
    now_ms: u64,
    root: Seq<char>,
)
    ensures
        ({
            let info = shared.process_info@;
            let recent = c.last_activity is Some && 0 <= now_ms - c.last_activity->0 < 30_000;
            let a = sidecar_session(c, claim, verified, shared, now_ms, root).status;
            let loaded = exists|k: u32|
                #![trigger info.contains_key(k)]
                info.contains_key(k) && info[k].cpu_millis > 5_000 && runs_below(
                    shared.children_map@,
                    claim.pid,
                    k,
                );
            &&& a == SessionStatus::Unknown <==> !verified
            &&& a == SessionStatus::Executing <==> verified && (loaded || (recent
                && c.current_task.len() > 0))
            &&& a == SessionStatus::Waiting <==> verified && !loaded && !recent
        }),
        transcript_session(c, h, pid, true, shared, now_ms, root).status == SessionStatus::Unknown,
        transcript_session(c, h, 0, false, shared, now_ms, root).status == SessionStatus::Unknown,
        pid != 0 && pid == claim.pid && verified ==> transcript_session(
            c,
            h,
            pid,
            false,
            shared,
            now_ms,
            root,
        ).status == sidecar_session(c, claim, verified, shared, now_ms, root).status,
{
    law_work_below_is_a_loaded_process_below(
        claim.pid,
        shared.children_map@,
        shared.process_info@,
        5_000,
    );
}

/// The task that is shown is the tool that was called last; where none was, a
/// session that waits is shown to wait, and one that nobody confirms as
/// unknown.
pub proof fn law_task_is_shown(
    c: CacheView,
    claim: SidecarView,
    verified: bool,
    h: HeaderView,
    pid: u32,
    unknown: bool,
    shared: SharedProcessData,
    now_ms: u64,
    root: Seq<char>,
)
    ensures
        ({
            let a = sidecar_session(c, claim, verified, shared, now_ms, root);
            let b = transcript_session(c, h, pid, unknown, shared, now_ms, root);
            &&& c.current_task.len() > 0 ==> a.current_tasks == seq![c.current_task]
                && b.current_tasks == seq![c.current_task]
            &&& c.current_task.len() == 0 && a.status == SessionStatus::Waiting ==> a.current_tasks
                == seq!["waiting for input"@]
            &&& c.current_task.len() == 0 && a.status == SessionStatus::Thinking ==> a.current_tasks
                == seq!["thinking..."@]
            &&& c.current_task.len() == 0 && a.status == SessionStatus::Unknown ==> a.current_tasks
                == seq!["unknown status"@]
            &&& c.current_task.len() == 0 && b.status == SessionStatus::Waiting ==> b.current_tasks
                == seq!["waiting for input"@]
            &&& c.current_task.len() == 0 && unknown ==> b.current_tasks == seq!["unknown status"@]
        }),
{
}

} // verus!
