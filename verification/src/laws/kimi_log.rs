//! What the log of a kimi-code session tells, event by event.
use crate::activity::DeltaView;
use crate::activity::no_delta;
use crate::cache::CacheView;
use crate::cache::LogFile;
use crate::cache::is_bounded;
use crate::content::BlockKinds;
use crate::content::block_texts;
use crate::content::file_arg;
use crate::content::shown_arg;
use crate::content::shown_text;
use crate::json::JsonTree;
use crate::kimi::wire::Wire;
use crate::kimi::wire::event_time;
use crate::kimi::wire::file_op;
use crate::kimi::wire::tool_kind;
use crate::kimi::wire::wire_fits;
use crate::kimi::wire::wire_step;
use crate::laws::looks::earliest;
use crate::laws::looks::is_first_written;
use crate::laws::looks::is_given;
use crate::laws::looks::is_last_said;
use crate::laws::looks::lemma_earliest;
use crate::laws::looks::lemma_first_written;
use crate::laws::looks::lemma_last_said;
use crate::laws::looks::lemma_newest;
use crate::laws::looks::lemma_total_grows;
use crate::laws::looks::new_events;
use crate::laws::looks::newest;
use crate::laws::looks::opt;
use crate::laws::looks::standing;
use crate::laws::looks::told;
use crate::laws::looks::total;
use crate::laws::pi_log::Call;
use crate::laws::pi_log::at_turn;
use crate::laws::pi_log::if_filled;
use crate::laws::pi_log::is_entry;
use crate::laws::pi_log::tokens_in;
use crate::model::ChatRole;
use crate::model::ChatView;
use crate::model::FileOp;
use crate::model::FileView;
use crate::model::ToolView;
use crate::policy::HostPolicy;
use crate::tailing::look_fits;
use crate::tailing::run;
use crate::tailing::run_fits;
use crate::text::flattened;
use crate::text::join;
use crate::text::trim;
use crate::text::truncated;
use vstd::prelude::*;

verus! {

/// The tokens that an event names: those of a usage record.
pub open spec fn usage_of(event: JsonTree) -> Option<JsonTree> {
    if is_entry(event, "usage.record"@) {
        event.get("usage"@)
    } else {
        None
    }
}

/// The number of tokens that an event's usage names under `key`, or 0.
pub open spec fn tokens_of(event: JsonTree, key: Seq<char>) -> int {
    match usage_of(event) {
        Some(u) => tokens_in(u, key),
        None => 0,
    }
}

/// The model that an event names.
pub open spec fn model_of(event: JsonTree) -> Option<Seq<char>> {
    if is_entry(event, "usage.record"@) {
        if_filled(event.get_str("model"@))
    } else {
        None
    }
}

/// The tokens in the context window after a turn: all that went in, read from
/// the cache, written to it or neither.
pub open spec fn context_of(event: JsonTree) -> Option<int> {
    match usage_of(event) {
        Some(u) => Some(
            tokens_in(u, "inputOther"@) + tokens_in(u, "inputCacheRead"@) + tokens_in(
                u,
                "inputCacheCreation"@,
            ),
        ),
        None => None,
    }
}

/// All tokens of a turn.
pub open spec fn spent_of(event: JsonTree) -> Seq<int> {
    match usage_of(event) {
        Some(u) => seq![
            tokens_in(u, "inputOther"@) + tokens_in(u, "output"@) + tokens_in(u, "inputCacheRead"@)
                + tokens_in(u, "inputCacheCreation"@),
        ],
        None => Seq::empty(),
    }
}

/// The message that an event holds, where it is one of the given role.
pub open spec fn message_of(event: JsonTree, role: Seq<char>) -> Option<JsonTree> {
    match event.get("message"@) {
        Some(msg) => if is_entry(event, "context.append_message"@) && msg.get_str("role"@) == Some(
            role,
        ) {
            Some(msg)
        } else {
            None
        },
        None => None,
    }
}

/// One for a turn of the assistant.
pub open spec fn turns_of(event: JsonTree) -> int {
    if message_of(event, "assistant"@) is Some {
        1
    } else {
        0
    }
}

/// The event of the agent's loop that an event holds, where it is of the given
/// type.
pub open spec fn loop_event(event: JsonTree, kind: Seq<char>) -> Option<JsonTree> {
    match event.get("event"@) {
        Some(inner) => if is_entry(event, "context.append_loop_event"@) && is_entry(inner, kind) {
            Some(inner)
        } else {
            None
        },
        None => None,
    }
}

/// The call of a tool that an event is.
pub open spec fn call_of(event: JsonTree) -> Option<Call> {
    match loop_event(event, "tool.call"@) {
        Some(inner) => Some(
            Call {
                name: match inner.get_str("name"@) {
                    Some(n) => n,
                    None => "?"@,
                },
                args: match inner.get("args"@) {
                    Some(a) => a,
                    None => JsonTree::Null,
                },
            },
        ),
        None => None,
    }
}

/// A call as it is listed.
pub open spec fn listed<P: HostPolicy>(policy: P, call: Call) -> ToolView {
    ToolView {
        name: call.name,
        arg: truncated(shown_arg(policy, tool_kind(call.name), call.args), 40),
        duration_ms: 0,
    }
}

/// The call of an event as it is listed.
pub open spec fn listed_of<P: HostPolicy>(policy: P, event: JsonTree) -> Seq<ToolView> {
    match call_of(event) {
        Some(call) => seq![listed(policy, call)],
        None => Seq::empty(),
    }
}

/// The task that an event begins.
pub open spec fn task_of<P: HostPolicy>(policy: P, event: JsonTree) -> Option<Seq<char>> {
    match call_of(event) {
        Some(call) => Some(listed(policy, call).name + seq![' '] + listed(policy, call).arg),
        None => None,
    }
}

/// The file that an event's call touches, and what it does to it.
pub open spec fn touched_by(event: JsonTree) -> Seq<(Seq<char>, FileOp)> {
    match call_of(event) {
        Some(call) => match (file_op(call.name), file_arg(tool_kind(call.name), call.args)) {
            (Some(op), Some(path)) => seq![(path, op)],
            _ => Seq::empty(),
        },
        None => Seq::empty(),
    }
}

/// The accesses to files that events tell of, each with the number of turns up
/// to it.
pub open spec fn accesses(events: Seq<JsonTree>) -> Seq<FileView>
    decreases events.len(),
{
    if events.len() == 0 {
        Seq::empty()
    } else {
        accesses(events.drop_last()) + at_turn(
            touched_by(events.last()),
            total(events, |e: JsonTree| turns_of(e)) as u32,
        )
    }
}

/// What one of the given role writes in an event.
pub open spec fn words_of<P: HostPolicy>(policy: P, event: JsonTree, role: Seq<char>) -> Seq<char> {
    match message_of(event, role) {
        Some(msg) => shown_text(policy, msg.get("content"@), BlockKinds::TextAndThink),
        None => Seq::empty(),
    }
}

/// The message that an event adds to the conversation.
pub open spec fn said_in<P: HostPolicy>(policy: P, event: JsonTree) -> Seq<ChatView> {
    let turn = words_of(policy, event, "assistant"@);
    let user = words_of(policy, event, "user"@);
    if turn.len() > 0 {
        seq![ChatView { role: ChatRole::Assistant, text: turn }]
    } else if user.len() > 0 {
        seq![ChatView { role: ChatRole::User, text: user }]
    } else {
        Seq::empty()
    }
}

/// The words of the prompt that begins a turn.
pub open spec fn turn_prompt(event: JsonTree) -> Seq<char> {
    match event.get("input"@) {
        Some(JsonTree::Array(blocks)) => if is_entry(event, "turn.prompt"@) {
            join(block_texts(blocks, BlockKinds::Text), seq![' '])
        } else {
            Seq::empty()
        },
        _ => Seq::empty(),
    }
}

/// The prompt that an event would begin a session with.
pub open spec fn prompt_of<P: HostPolicy>(policy: P, event: JsonTree) -> Seq<char> {
    if trim(turn_prompt(event)).len() > 0 {
        truncated(flattened(turn_prompt(event), true), 50)
    } else {
        truncated(flattened(words_of(policy, event, "user"@), true), 50)
    }
}

/// What an event shows of the assistant's first words: those of a message, or a
/// part of one that is still written.
pub open spec fn opening_of<P: HostPolicy>(policy: P, event: JsonTree) -> Seq<char> {
    match loop_event(event, "content.part"@) {
        Some(inner) => match inner.get("part"@) {
            Some(part) => match part.get_str("text"@) {
                Some(t) => if is_entry(part, "text"@) && trim(policy.sanitized(t)).len() > 0 {
                    truncated(policy.sanitized(t), 200)
                } else {
                    Seq::empty()
                },
                None => Seq::empty(),
            },
            None => Seq::empty(),
        },
        None => truncated(words_of(policy, event, "assistant"@), 200),
    }
}

/// The literals differ.
proof fn lits()
    ensures
        ""@ == Seq::<char>::empty(),
        "usage.record"@ != "context.append_message"@,
        "usage.record"@ != "context.append_loop_event"@,
        "usage.record"@ != "turn.prompt"@,
        "context.append_message"@ != "context.append_loop_event"@,
        "context.append_message"@ != "turn.prompt"@,
        "context.append_loop_event"@ != "turn.prompt"@,
        "tool.call"@ != "content.part"@,
        "assistant"@ != "user"@,
        "usage.record"@.len() > 0,
        "context.append_message"@.len() > 0,
        "context.append_loop_event"@.len() > 0,
        "turn.prompt"@.len() > 0,
        "tool.call"@.len() > 0,
        "content.part"@.len() > 0,
        "assistant"@.len() > 0,
        "user"@.len() > 0,
{
    reveal_strlit("");
    reveal_strlit("usage.record");
    reveal_strlit("context.append_message");
    reveal_strlit("context.append_loop_event");
    reveal_strlit("turn.prompt");
    reveal_strlit("tool.call");
    reveal_strlit("content.part");
    reveal_strlit("assistant");
    reveal_strlit("user");
    assert(""@ =~= Seq::<char>::empty());
}

proof fn lemma_nothing_is_shown()
    ensures
        trim(Seq::<char>::empty()) == Seq::<char>::empty(),
        truncated(flattened(Seq::empty(), true), 50) == Seq::<char>::empty(),
        truncated(Seq::<char>::empty(), 200) == Seq::<char>::empty(),
{
}

/// What one event leaves behind in the counts.
#[verifier::rlimit(50)]
proof fn lemma_step_counts<P: HostPolicy>(policy: P, event: JsonTree, d: DeltaView)
    requires
        wire_fits(event, d),
    ensures
        ({
            let r = wire_step(policy, event, d);
            &&& r.input == d.input + tokens_of(event, "inputOther"@)
            &&& r.output == d.output + tokens_of(event, "output"@)
            &&& r.cache_read == d.cache_read + tokens_of(event, "inputCacheRead"@)
            &&& r.cache_create == d.cache_create + tokens_of(event, "inputCacheCreation"@)
            &&& r.turn_count == d.turn_count + turns_of(event)
            &&& r.model == match model_of(event) {
                Some(m) => Some(m),
                None => d.model,
            }
            &&& r.current_task == match task_of(policy, event) {
                Some(t) => t,
                None => d.current_task,
            }
            &&& r.saw_usage == (d.saw_usage || is_entry(event, "usage.record"@))
            &&& r.context_tokens == match context_of(event) {
                Some(n) => n,
                None => d.context_tokens as int,
            }
            &&& r.last_activity == match event_time(event.get("time"@)) {
                Some(t) => match d.last_activity {
                    Some(u) => Some(
                        if t > u {
                            t
                        } else {
                            u
                        },
                    ),
                    None => Some(t),
                },
                None => d.last_activity,
            }
        }),
{
    lits();
}

/// What one event leaves behind in the lists and texts.
#[verifier::rlimit(50)]
proof fn lemma_step_lists<P: HostPolicy>(policy: P, event: JsonTree, d: DeltaView)
    requires
        wire_fits(event, d),
    ensures
        ({
            let r = wire_step(policy, event, d);
            let wide = |n: u64| n as int;
            &&& d.token_history.len() <= 10_000 ==> r.token_history.map_values(wide) == earliest(
                d.token_history.map_values(wide) + spent_of(event),
                10_000,
            )
            &&& spent_of(event).len() == 0 ==> r.token_history == d.token_history
            &&& d.tool_calls.len() <= 500 ==> r.tool_calls == earliest(
                d.tool_calls + listed_of(policy, event),
                500,
            )
            &&& r.file_accesses == d.file_accesses + at_turn(touched_by(event), r.turn_count)
            &&& said_in(policy, event).len() > 0 ==> r.chat_messages == newest(
                d.chat_messages + said_in(policy, event),
                policy.chat_limit(),
            )
            &&& said_in(policy, event).len() == 0 ==> r.chat_messages == d.chat_messages
            &&& r.initial_prompt == if d.initial_prompt.len() > 0 {
                d.initial_prompt
            } else {
                prompt_of(policy, event)
            }
            &&& r.first_assistant_text == if d.first_assistant_text.len() > 0 {
                d.first_assistant_text
            } else {
                opening_of(policy, event)
            }
        }),
{
    lits();
    lemma_nothing_is_shown();
    let r = wire_step(policy, event, d);
    let wide = |n: u64| n as int;
    assert(d.token_history.map_values(wide) + Seq::<int>::empty() =~= d.token_history.map_values(
        wide,
    ));
    if d.token_history.len() <= 10_000 {
        assert(r.token_history.map_values(wide) =~= earliest(
            d.token_history.map_values(wide) + spent_of(event),
            10_000,
        ));
    }
    if d.tool_calls.len() <= 500 {
        assert(r.tool_calls =~= earliest(d.tool_calls + listed_of(policy, event), 500));
    }
    assert(at_turn(Seq::empty(), r.turn_count) =~= Seq::empty());
    assert(r.file_accesses =~= d.file_accesses + at_turn(touched_by(event), r.turn_count));
    if said_in(policy, event).len() > 0 {
        let m = said_in(policy, event)[0];
        assert(d.chat_messages.push(m) =~= d.chat_messages + said_in(policy, event));
        assert(r.chat_messages =~= newest(
            d.chat_messages + said_in(policy, event),
            policy.chat_limit(),
        ));
    }
    if d.initial_prompt.len() == 0 {
        assert(d.initial_prompt =~= Seq::empty());
    }
    if d.first_assistant_text.len() == 0 {
        assert(d.first_assistant_text =~= Seq::empty());
    }
    if words_of(policy, event, "user"@).len() == 0 {
        assert(words_of(policy, event, "user"@) =~= Seq::empty());
    }
    if words_of(policy, event, "assistant"@).len() == 0 {
        assert(words_of(policy, event, "assistant"@) =~= Seq::empty());
    }
}

/// Whether `time` is the latest of the times of the events, where any of them
/// has one.
pub open spec fn is_latest(events: Seq<JsonTree>, time: Option<u64>) -> bool {
    &&& forall|k: int|
        #![trigger events[k]]
        0 <= k < events.len() && event_time(events[k].get("time"@)) is Some ==> time is Some
            && event_time(events[k].get("time"@))->0 <= time->0
    &&& time is Some ==> exists|k: int|
        #![trigger events[k]]
        0 <= k < events.len() && event_time(events[k].get("time"@)) == time
}

/// What events leave behind in the counts, one after another.
#[verifier::rlimit(50)]
pub proof fn lemma_run_counts<P: HostPolicy>(policy: P, events: Seq<JsonTree>, at: u64)
    requires
        run_fits::<P, Wire>(policy, events, no_delta(at)),
    ensures
        ({
            let r = run::<P, Wire>(policy, events, no_delta(at));
            &&& r.input == total(events, |e: JsonTree| tokens_of(e, "inputOther"@))
            &&& r.output == total(events, |e: JsonTree| tokens_of(e, "output"@))
            &&& r.cache_read == total(events, |e: JsonTree| tokens_of(e, "inputCacheRead"@))
            &&& r.cache_create == total(events, |e: JsonTree| tokens_of(e, "inputCacheCreation"@))
            &&& r.turn_count == total(events, |e: JsonTree| turns_of(e))
            &&& is_last_said(events, |e: JsonTree| opt(model_of(e)), None, r.model)
            &&& is_last_said(events, |e: JsonTree| task_of(policy, e), Seq::empty(), r.current_task)
            &&& is_last_said(events, |e: JsonTree| context_of(e), 0, r.context_tokens as int)
            &&& (r.saw_usage <==> exists|k: int|
                0 <= k < events.len() && is_entry(#[trigger] events[k], "usage.record"@))
            &&& is_latest(events, r.last_activity)
        }),
    decreases events.len(),
{
    let r = run::<P, Wire>(policy, events, no_delta(at));
    if events.len() > 0 {
        let most = events.drop_last();
        let e = events.last();
        let n = events.len() - 1;
        let m = run::<P, Wire>(policy, most, no_delta(at));
        lemma_run_counts(policy, most, at);
        lemma_step_counts(policy, e, m);
        lemma_last_said(events, |e: JsonTree| opt(model_of(e)), None, r.model);
        lemma_last_said(
            events,
            |e: JsonTree| task_of(policy, e),
            Seq::empty(),
            r.current_task,
        );
        lemma_last_said(events, |e: JsonTree| context_of(e), 0, r.context_tokens as int);
        assert(events[n] == e);
        if m.saw_usage {
            let k = choose|k: int|
                0 <= k < most.len() && is_entry(#[trigger] most[k], "usage.record"@);
            assert(is_entry(events[k], "usage.record"@));
        }
        if exists|k: int|
            0 <= k < events.len() && is_entry(#[trigger] events[k], "usage.record"@) {
            let k = choose|k: int|
                0 <= k < events.len() && is_entry(#[trigger] events[k], "usage.record"@);
            if k < n {
                assert(is_entry(most[k], "usage.record"@));
            }
        }
        assert(is_latest(events, r.last_activity)) by {
            assert forall|k: int|
                #![trigger events[k]]
                0 <= k < events.len() && event_time(
                    events[k].get("time"@),
                ) is Some implies r.last_activity is Some && event_time(
                events[k].get("time"@),
            )->0 <= r.last_activity->0 by {
                if k < most.len() {
                    assert(most[k] == events[k]);
                }
            }
            if r.last_activity is Some && r.last_activity == m.last_activity {
                let k = choose|k: int|
                    #![trigger most[k]]
                    0 <= k < most.len() && event_time(most[k].get("time"@)) == m.last_activity;
                assert(events[k] == most[k]);
            }
        }
    }
}

/// What events leave behind in the lists and texts, one after another.
#[verifier::rlimit(50)]
pub proof fn lemma_run_lists<P: HostPolicy>(policy: P, events: Seq<JsonTree>, at: u64)
    requires
        run_fits::<P, Wire>(policy, events, no_delta(at)),
    ensures
        ({
            let r = run::<P, Wire>(policy, events, no_delta(at));
            let calls = told(events, |e: JsonTree| listed_of(policy, e));
            let spent = told(events, |e: JsonTree| spent_of(e));
            let said = told(events, |e: JsonTree| said_in(policy, e));
            &&& r.tool_calls == earliest(calls, 500)
            &&& r.token_history.map_values(|n: u64| n as int) == earliest(spent, 10_000)
            &&& spent.len() == 0 ==> r.token_history.len() == 0
            &&& spent.len() > 0 ==> r.saw_usage
            &&& r.file_accesses == accesses(events)
            &&& newest(r.chat_messages, policy.chat_limit()) == newest(said, policy.chat_limit())
            &&& is_first_written(events, |e: JsonTree| prompt_of(policy, e), r.initial_prompt)
            &&& is_first_written(events, |e: JsonTree| opening_of(policy, e), r.first_assistant_text)
        }),
    decreases events.len(),
{
    let f = |e: JsonTree| listed_of(policy, e);
    let g = |e: JsonTree| spent_of(e);
    let h = |e: JsonTree| said_in(policy, e);
    let wide = |n: u64| n as int;
    let n = policy.chat_limit();
    let r = run::<P, Wire>(policy, events, no_delta(at));
    if events.len() == 0 {
        assert(r.token_history.map_values(wide) =~= earliest(told(events, g), 10_000));
        assert(r.tool_calls =~= earliest(told(events, f), 500));
        assert(newest(r.chat_messages, n) =~= newest(told(events, h), n));
    } else {
        let most = events.drop_last();
        let e = events.last();
        let m = run::<P, Wire>(policy, most, no_delta(at));
        lemma_run_lists(policy, most, at);
        lemma_run_counts(policy, events, at);
        lemma_step_lists(policy, e, m);
        lemma_step_counts(policy, e, m);
        lemma_earliest(told(most, f), listed_of(policy, e), 500);
        lemma_earliest(told(most, g), spent_of(e), 10_000);
        assert(told(events, g).len() == told(most, g).len() + spent_of(e).len());
        assert(m.token_history.map_values(wide).len() == m.token_history.len());
        let said = said_in(policy, e);
        lemma_newest(m.chat_messages, said, n);
        lemma_newest(told(most, h), said, n);
        lemma_newest(m.chat_messages + said, Seq::empty(), n);
        if said.len() == 0 {
            assert(m.chat_messages + said =~= m.chat_messages);
            assert(told(most, h) + said =~= told(most, h));
        }
        lemma_first_written(
            events,
            |e: JsonTree| prompt_of(policy, e),
            m.initial_prompt,
            r.initial_prompt,
        );
        lemma_first_written(
            events,
            |e: JsonTree| opening_of(policy, e),
            m.first_assistant_text,
            r.first_assistant_text,
        );
    }
}

proof fn lemma_run_fits<P: HostPolicy>(policy: P, events: Seq<JsonTree>, at: u64)
    requires
        total(events, |e: JsonTree| tokens_of(e, "inputOther"@)) <= u64::MAX,
        total(events, |e: JsonTree| tokens_of(e, "output"@)) <= u64::MAX,
        total(events, |e: JsonTree| tokens_of(e, "inputCacheRead"@)) <= u64::MAX,
        total(events, |e: JsonTree| tokens_of(e, "inputCacheCreation"@)) <= u64::MAX,
        total(events, |e: JsonTree| turns_of(e)) <= u32::MAX,
        forall|i: int|
            0 <= i < events.len() && spent_of(#[trigger] events[i]).len() > 0 ==> spent_of(
                events[i],
            )[0] <= u64::MAX,
    ensures
        run_fits::<P, Wire>(policy, events, no_delta(at)),
    decreases events.len(),
{
    if events.len() > 0 {
        let most = events.drop_last();
        let e = events.last();
        lemma_total_grows(events, |e: JsonTree| tokens_of(e, "inputOther"@));
        lemma_total_grows(events, |e: JsonTree| tokens_of(e, "output"@));
        lemma_total_grows(events, |e: JsonTree| tokens_of(e, "inputCacheRead"@));
        lemma_total_grows(events, |e: JsonTree| tokens_of(e, "inputCacheCreation"@));
        lemma_total_grows(events, |e: JsonTree| turns_of(e));
        assert forall|i: int| 0 <= i < most.len() && spent_of(#[trigger] most[i]).len()
            > 0 implies spent_of(most[i])[0] <= u64::MAX by {
            assert(spent_of(events[i]).len() > 0);
        }
        lemma_run_fits(policy, most, at);
        lemma_run_counts(policy, most, at);
        assert(events[events.len() - 1] == e);
        lemma_event_fits(policy, events, at);
    }
}

/// A look is taken where the log is given from the place on up to which it was
/// read, and the sums of what its events count fit what is counted in.
pub proof fn law_look_is_taken<P: HostPolicy>(policy: P, c: CacheView, log: LogFile)
    requires
        is_bounded(policy, c),
        is_given(log),
        log.start <= standing(c, log).offset,
        ({
            let events = new_events(c, log);
            let before = standing(c, log);
            &&& before.total_input + total(events, |e: JsonTree| tokens_of(e, "inputOther"@)) <= u64::MAX
            &&& before.total_output + total(events, |e: JsonTree| tokens_of(e, "output"@)) <= u64::MAX
            &&& before.total_cache_read + total(
                events,
                |e: JsonTree| tokens_of(e, "inputCacheRead"@),
            ) <= u64::MAX
            &&& before.total_cache_create + total(
                events,
                |e: JsonTree| tokens_of(e, "inputCacheCreation"@),
            ) <= u64::MAX
            &&& before.turn_count + total(events, |e: JsonTree| turns_of(e)) <= u32::MAX
            &&& forall|i: int|
                0 <= i < events.len() && spent_of(#[trigger] events[i]).len() > 0 ==> spent_of(
                    events[i],
                )[0] <= u64::MAX
        }),
    ensures
        look_fits::<P, Wire>(policy, c, Some(log)),
{
    let events = new_events(c, log);
    let before = standing(c, log);
    lemma_run_fits(policy, events, before.offset);
    lemma_run_counts(policy, events, before.offset);
    let tail = log.bytes@.skip(before.offset - log.start);
    if tail.len() == 0 {
        assert(events =~= Seq::empty());
    }
    assert(run::<P, Wire>(policy, events, no_delta(before.offset)).compaction_count == 0) by {
        lemma_no_compaction(policy, events, before.offset);
    }
}

proof fn lemma_event_fits<P: HostPolicy>(policy: P, events: Seq<JsonTree>, at: u64)
    requires
        events.len() > 0,
        run_fits::<P, Wire>(policy, events.drop_last(), no_delta(at)),
        total(events, |e: JsonTree| tokens_of(e, "inputOther"@)) <= u64::MAX,
        total(events, |e: JsonTree| tokens_of(e, "output"@)) <= u64::MAX,
        total(events, |e: JsonTree| tokens_of(e, "inputCacheRead"@)) <= u64::MAX,
        total(events, |e: JsonTree| tokens_of(e, "inputCacheCreation"@)) <= u64::MAX,
        total(events, |e: JsonTree| turns_of(e)) <= u32::MAX,
        spent_of(events.last()).len() > 0 ==> spent_of(events.last())[0] <= u64::MAX,
    ensures
        crate::kimi::wire::wire_fits(
            events.last(),
            run::<P, Wire>(policy, events.drop_last(), no_delta(at)),
        ),
{
    lemma_run_counts(policy, events.drop_last(), at);
    lits();
}

proof fn lemma_no_compaction<P: HostPolicy>(policy: P, events: Seq<JsonTree>, at: u64)
    ensures
        run::<P, Wire>(policy, events, no_delta(at)).compaction_count == 0,
        run::<P, Wire>(policy, events, no_delta(at)).effort is None,
    decreases events.len(),
{
    if events.len() > 0 {
        lemma_no_compaction(policy, events.drop_last(), at);
    }
}

} // verus!
