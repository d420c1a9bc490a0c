//! What a transcript of Pi tells of its session, entry by entry.
use crate::activity::DeltaView;
use crate::activity::no_delta;
use crate::cache::CacheView;
use crate::cache::LogFile;
use crate::cache::is_bounded;
use crate::content::BlockKinds;
use crate::content::file_arg;
use crate::content::shown_arg;
use crate::content::shown_text;
use crate::json::JsonTree;
use crate::laws::looks::earliest;
use crate::laws::looks::is_first_written;
use crate::laws::looks::is_given;
use crate::laws::looks::is_last_said;
use crate::laws::looks::lemma_earliest;
use crate::laws::looks::lemma_first_written;
use crate::laws::looks::lemma_last_said;
use crate::laws::looks::lemma_newest;
use crate::laws::looks::lemma_total_grows;
use crate::laws::looks::new_events;
use crate::laws::looks::newest;
use crate::laws::looks::opt;
use crate::laws::looks::standing;
use crate::laws::looks::told;
use crate::laws::looks::total;
use crate::model::ChatRole;
use crate::model::ChatView;
use crate::model::FileOp;
use crate::model::FileView;
use crate::model::ToolView;
use crate::pi::transcript::Transcript;
use crate::pi::transcript::blocks_step;
use crate::pi::transcript::content_blocks;
use crate::pi::transcript::file_op;
use crate::pi::transcript::shown_speech;
use crate::pi::transcript::spoken;
use crate::pi::transcript::tool_kind;
use crate::pi::transcript::transcript_fits;
use crate::pi::transcript::transcript_step;
use crate::pi::transcript::turn_step;
use crate::policy::HostPolicy;
use crate::tailing::look_fits;
use crate::tailing::run;
use crate::tailing::run_fits;
use crate::text::flattened;
use crate::text::trim;
use crate::text::truncated;
use crate::timestamp::timestamp_value;
use vstd::prelude::*;

verus! {

/// Whether the entry is of the given type.
pub open spec fn is_entry(event: JsonTree, kind: Seq<char>) -> bool {
    event.get_str("type"@) == Some(kind)
}

/// The message that an entry holds, where it is one of the given role.
pub open spec fn message_of(event: JsonTree, role: Seq<char>) -> Option<JsonTree> {
    match event.get("message"@) {
        Some(msg) => if is_entry(event, "message"@) && msg.get_str("role"@) == Some(role) {
            Some(msg)
        } else {
            None
        },
        None => None,
    }
}

/// The usage that an entry names: that of a turn of the assistant.
pub open spec fn usage_of(event: JsonTree) -> Option<JsonTree> {
    match message_of(event, "assistant"@) {
        Some(msg) => msg.get("usage"@),
        None => None,
    }
}

/// The number of tokens that a usage names under `key`, or 0.
pub open spec fn tokens_in(usage: JsonTree, key: Seq<char>) -> int {
    match usage.get_u64(key) {
        Some(n) => n as int,
        None => 0,
    }
}

/// The number of tokens that an entry's usage names under `key`, or 0.
pub open spec fn tokens_of(event: JsonTree, key: Seq<char>) -> int {
    match usage_of(event) {
        Some(u) => tokens_in(u, key),
        None => 0,
    }
}

/// The text where it is not empty.
pub open spec fn if_filled(text: Option<Seq<char>>) -> Option<Seq<char>> {
    match text {
        Some(t) => if t.len() == 0 {
            None
        } else {
            Some(t)
        },
        None => None,
    }
}

/// The model that an entry names.
pub open spec fn model_of(event: JsonTree) -> Option<Seq<char>> {
    match message_of(event, "assistant"@) {
        Some(msg) => if_filled(msg.get_str("model"@)),
        None => if is_entry(event, "model_change"@) {
            if_filled(event.get_str("modelId"@))
        } else {
            None
        },
    }
}

/// The reasoning effort that an entry sets.
pub open spec fn effort_of(event: JsonTree) -> Option<Seq<char>> {
    if is_entry(event, "thinking_level_change"@) {
        event.get_str("thinkingLevel"@)
    } else {
        None
    }
}

/// One for a turn of the assistant.
pub open spec fn turns_of(event: JsonTree) -> int {
    if message_of(event, "assistant"@) is Some {
        1
    } else {
        0
    }
}

/// One for a compaction.
pub open spec fn compactions_of(event: JsonTree) -> int {
    if is_entry(event, "compaction"@) {
        1
    } else {
        0
    }
}

/// The tokens in the context window after a turn: those that went in, read
/// from the cache or not.
pub open spec fn context_of(event: JsonTree) -> Option<int> {
    match usage_of(event) {
        Some(u) => Some(tokens_in(u, "input"@) + tokens_in(u, "cacheRead"@)),
        None => None,
    }
}

/// All tokens of a turn.
pub open spec fn spent_of(event: JsonTree) -> Seq<int> {
    match usage_of(event) {
        Some(u) => seq![
            tokens_in(u, "input"@) + tokens_in(u, "output"@) + tokens_in(u, "cacheRead"@)
                + tokens_in(u, "cacheWrite"@),
        ],
        None => Seq::empty(),
    }
}

/// The blocks of a message, where its content is made of blocks.
pub open spec fn blocks_of(msg: JsonTree) -> Seq<JsonTree> {
    match msg.get("content"@) {
        Some(JsonTree::Array(blocks)) => blocks,
        _ => Seq::empty(),
    }
}

/// A call of a tool: its name and its arguments.
pub struct Call {
    pub name: Seq<char>,
    pub args: JsonTree,
}

/// The call that a block is.
pub open spec fn call_in(block: JsonTree) -> Seq<Call> {
    if is_entry(block, "toolCall"@) {
        let name = match block.get_str("name"@) {
            Some(n) => n,
            None => "?"@,
        };
        let args = match block.get("arguments"@) {
            Some(a) => a,
            None => JsonTree::Null,
        };
        seq![Call { name, args }]
    } else {
        Seq::empty()
    }
}

/// The calls of tools in an entry.
pub open spec fn calls_of(event: JsonTree) -> Seq<Call> {
    match message_of(event, "assistant"@) {
        Some(msg) => told(blocks_of(msg), |b: JsonTree| call_in(b)),
        None => Seq::empty(),
    }
}

/// A call as it is listed.
pub open spec fn listed<P: HostPolicy>(policy: P, call: Call) -> ToolView {
    ToolView {
        name: call.name,
        arg: truncated(shown_arg(policy, tool_kind(call.name), call.args), 40),
        duration_ms: 0,
    }
}

/// A call as the current task.
pub open spec fn task_text<P: HostPolicy>(policy: P, call: Call) -> Seq<char> {
    let t = listed(policy, call);
    t.name + seq![' '] + t.arg
}

/// The calls of an entry as they are listed.
pub open spec fn listed_of<P: HostPolicy>(policy: P, event: JsonTree) -> Seq<ToolView> {
    calls_of(event).map_values(|call: Call| listed(policy, call))
}

/// The task that an entry begins: its last call.
pub open spec fn task_of<P: HostPolicy>(policy: P, event: JsonTree) -> Option<Seq<char>> {
    if calls_of(event).len() == 0 {
        None
    } else {
        Some(task_text(policy, calls_of(event).last()))
    }
}

/// The file that a call touches, and what it does to it.
pub open spec fn touched_by(call: Call) -> Seq<(Seq<char>, FileOp)> {
    match (file_op(call.name), file_arg(tool_kind(call.name), call.args)) {
        (Some(op), Some(path)) => seq![(path, op)],
        _ => Seq::empty(),
    }
}

/// The files that calls touch, in order.
pub open spec fn all_touched(calls: Seq<Call>) -> Seq<(Seq<char>, FileOp)>
    decreases calls.len(),
{
    if calls.len() == 0 {
        Seq::empty()
    } else {
        all_touched(calls.drop_last()) + touched_by(calls.last())
    }
}

/// The accesses to files in the given turn.
pub open spec fn at_turn(files: Seq<(Seq<char>, FileOp)>, turn: u32) -> Seq<FileView> {
    files.map_values(
        |f: (Seq<char>, FileOp)| FileView { path: f.0, operation: f.1, turn_index: turn },
    )
}

/// The accesses to files that entries tell of, each with the number of turns up
/// to it.
pub open spec fn accesses(events: Seq<JsonTree>) -> Seq<FileView>
    decreases events.len(),
{
    if events.len() == 0 {
        Seq::empty()
    } else {
        accesses(events.drop_last()) + at_turn(
            all_touched(calls_of(events.last())),
            total(events, |e: JsonTree| turns_of(e)) as u32,
        )
    }
}

/// What the assistant writes in an entry.
pub open spec fn words_of_turn<P: HostPolicy>(policy: P, event: JsonTree) -> Seq<char> {
    match message_of(event, "assistant"@) {
        Some(msg) => policy.redacted(
            policy.sanitized(
                told(
                    blocks_of(msg),
                    |b: JsonTree|
                        match b.get_str("text"@) {
                            Some(t) => if is_entry(b, "text"@) {
                                t
                            } else {
                                Seq::empty()
                            },
                            None => Seq::empty(),
                        },
                ),
            ),
        ),
        None => Seq::empty(),
    }
}

/// What the user writes in an entry.
pub open spec fn words_of_user<P: HostPolicy>(policy: P, event: JsonTree) -> Seq<char> {
    match message_of(event, "user"@) {
        Some(msg) => shown_text(policy, msg.get("content"@), BlockKinds::Text),
        None => Seq::empty(),
    }
}

/// The message that an entry adds to the conversation.
pub open spec fn said_in<P: HostPolicy>(policy: P, event: JsonTree) -> Seq<ChatView> {
    let turn = words_of_turn(policy, event);
    let user = words_of_user(policy, event);
    if message_of(event, "assistant"@) is Some && trim(turn).len() > 0 {
        seq![ChatView { role: ChatRole::Assistant, text: turn }]
    } else if message_of(event, "user"@) is Some && user.len() > 0 {
        seq![ChatView { role: ChatRole::User, text: user }]
    } else {
        Seq::empty()
    }
}

/// What calls leave behind: the last of them is the task, all are listed, and
/// the files that they touch.
proof fn lemma_blocks<P: HostPolicy>(policy: P, blocks: Seq<JsonTree>, d: DeltaView)
    ensures
        ({
            let r = blocks_step(policy, blocks, d);
            let calls = told(blocks, |b: JsonTree| call_in(b));
            &&& r == (DeltaView {
                current_task: r.current_task,
                tool_calls: r.tool_calls,
                file_accesses: r.file_accesses,
                ..d
            })
            &&& r.current_task == if calls.len() == 0 {
                d.current_task
            } else {
                task_text(policy, calls.last())
            }
            &&& d.tool_calls.len() <= 500 ==> r.tool_calls == earliest(
                d.tool_calls + calls.map_values(|call: Call| listed(policy, call)),
                500,
            )
            &&& r.file_accesses == d.file_accesses + at_turn(all_touched(calls), d.turn_count)
            &&& spoken(blocks) == told(
                blocks,
                |b: JsonTree|
                    match b.get_str("text"@) {
                        Some(t) => if is_entry(b, "text"@) {
                            t
                        } else {
                            Seq::empty()
                        },
                        None => Seq::empty(),
                    },
            )
        }),
    decreases blocks.len(),
{
    let f = |b: JsonTree| call_in(b);
    let g = |call: Call| listed(policy, call);
    if blocks.len() == 0 {
        assert(told(blocks, f).map_values(g) =~= Seq::empty());
        assert(d.tool_calls + told(blocks, f).map_values(g) =~= d.tool_calls);
        assert(d.tool_calls.len() <= 500 ==> earliest(d.tool_calls, 500) =~= d.tool_calls);
        assert(d.file_accesses + at_turn(all_touched(told(blocks, f)), d.turn_count)
            =~= d.file_accesses);
    } else {
        let most = blocks.drop_last();
        let block = blocks.last();
        lemma_blocks(policy, most, d);
        let before = told(most, f);
        let calls = told(blocks, f);
        let m = blocks_step(policy, most, d);
        let r = blocks_step(policy, blocks, d);
        reveal_strlit("");
        assert(""@ =~= Seq::<char>::empty());
        reveal_strlit("toolCall");
        reveal_strlit("text");
        if is_entry(block, "toolCall"@) {
            let call = call_in(block)[0];
            assert(calls =~= before.push(call));
            assert(calls.drop_last() =~= before);
            assert(calls.map_values(g) =~= before.map_values(g).push(listed(policy, call)));
            let first = d.tool_calls + before.map_values(g);
            assert(d.tool_calls + calls.map_values(g) =~= first + seq![listed(policy, call)]);
            lemma_earliest(first, seq![listed(policy, call)], 500);
            if d.tool_calls.len() <= 500 {
                assert(r.tool_calls =~= earliest(m.tool_calls + seq![listed(policy, call)], 500));
            }
            assert(r.file_accesses =~= m.file_accesses + at_turn(touched_by(call), d.turn_count));
            assert(d.file_accesses + at_turn(all_touched(before) + touched_by(call), d.turn_count)
                =~= (d.file_accesses + at_turn(all_touched(before), d.turn_count)) + at_turn(
                touched_by(call),
                d.turn_count,
            ));
        } else {
            assert(calls =~= before);
        }
    }
}

/// What one entry leaves behind.
#[verifier::rlimit(50)]
proof fn lemma_step<P: HostPolicy>(policy: P, event: JsonTree, d: DeltaView)
    requires
        transcript_fits(event, d),
    ensures
        ({
            let r = transcript_step(policy, event, d);
            &&& r.input == d.input + tokens_of(event, "input"@)
            &&& r.output == d.output + tokens_of(event, "output"@)
            &&& r.cache_read == d.cache_read + tokens_of(event, "cacheRead"@)
            &&& r.cache_create == d.cache_create + tokens_of(event, "cacheWrite"@)
            &&& r.turn_count == d.turn_count + turns_of(event)
            &&& r.compaction_count == d.compaction_count + compactions_of(event)
            &&& r.model == match model_of(event) {
                Some(m) => Some(m),
                None => d.model,
            }
            &&& r.effort == match effort_of(event) {
                Some(e) => Some(e),
                None => d.effort,
            }
            &&& r.current_task == match task_of(policy, event) {
                Some(t) => t,
                None => d.current_task,
            }
            &&& match context_of(event) {
                Some(n) => r.saw_usage && r.context_tokens == n,
                None => r.saw_usage == d.saw_usage && r.context_tokens == d.context_tokens,
            }
            &&& r.last_activity == match timestamp_value(event.get("timestamp"@)) {
                Some(t) => match d.last_activity {
                    Some(u) => Some(if t > u {
                        t
                    } else {
                        u
                    }),
                    None => Some(t),
                },
                None => d.last_activity,
            }
            &&& d.token_history.len() <= 10_000 ==> r.token_history.map_values(|n: u64| n as int)
                == earliest(
                d.token_history.map_values(|n: u64| n as int) + spent_of(event),
                10_000,
            )
            &&& d.tool_calls.len() <= 500 ==> r.tool_calls == earliest(
                d.tool_calls + listed_of(policy, event),
                500,
            )
            &&& r.file_accesses == d.file_accesses + at_turn(
                all_touched(calls_of(event)),
                r.turn_count,
            )
            &&& r.chat_messages == newest(
                d.chat_messages + said_in(policy, event),
                policy.chat_limit(),
            ) || (said_in(policy, event).len() == 0 && r.chat_messages == d.chat_messages)
            &&& r.initial_prompt == if d.initial_prompt.len() == 0 && words_of_user(
                policy,
                event,
            ).len() > 0 {
                truncated(flattened(words_of_user(policy, event), true), 50)
            } else {
                d.initial_prompt
            }
            &&& r.first_assistant_text == if d.first_assistant_text.len() == 0 && trim(
                words_of_turn(policy, event),
            ).len() > 0 && turns_of(event) == 1 {
                truncated(words_of_turn(policy, event), 200)
            } else {
                d.first_assistant_text
            }
        }),
{
    lits();
    if let Some(msg) = event.get("message"@) {
        let seen = crate::activity::seen_at(d, timestamp_value(event.get("timestamp"@)));
        assert(content_blocks(msg) == blocks_of(msg));
        lemma_blocks(policy, blocks_of(msg), turn_step(msg, seen));
        let words = words_of_turn(policy, event);
        if words.len() == 0 {
            assert(words =~= Seq::empty());
        }
        lemma_trim_of_nothing();
        assert(shown_speech(policy, msg) == words || message_of(event, "assistant"@) is None);
    }
    let r = transcript_step(policy, event, d);
    let wide = |n: u64| n as int;
    if d.token_history.len() <= 10_000 {
        assert(r.token_history.map_values(wide) =~= earliest(
            d.token_history.map_values(wide) + spent_of(event),
            10_000,
        ));
    }
    if calls_of(event).len() == 0 {
        assert(listed_of(policy, event) =~= Seq::empty());
        assert(d.tool_calls.len() <= 500 ==> r.tool_calls =~= earliest(
            d.tool_calls + listed_of(policy, event),
            500,
        ));
        assert(all_touched(calls_of(event)) =~= Seq::empty());
        assert(r.file_accesses =~= d.file_accesses + at_turn(
            all_touched(calls_of(event)),
            r.turn_count,
        ));
    }
    if said_in(policy, event).len() > 0 {
        let m = said_in(policy, event)[0];
        assert(d.chat_messages.push(m) =~= d.chat_messages + said_in(policy, event));
        assert(r.chat_messages =~= newest(
            d.chat_messages + said_in(policy, event),
            policy.chat_limit(),
        ));
    }
}

proof fn lemma_trim_of_nothing()
    ensures
        trim(Seq::<char>::empty()) == Seq::<char>::empty(),
{
}

/// The literals differ.
proof fn lits()
    ensures
        ""@ == Seq::<char>::empty(),
        "message"@ != "model_change"@,
        "message"@ != "thinking_level_change"@,
        "message"@ != "compaction"@,
        "model_change"@ != "thinking_level_change"@,
        "model_change"@ != "compaction"@,
        "thinking_level_change"@ != "compaction"@,
        "assistant"@ != "user"@,
        "message"@.len() > 0,
        "model_change"@.len() > 0,
        "thinking_level_change"@.len() > 0,
        "compaction"@.len() > 0,
        "assistant"@.len() > 0,
        "user"@.len() > 0,
{
    reveal_strlit("");
    reveal_strlit("message");
    reveal_strlit("model_change");
    reveal_strlit("thinking_level_change");
    reveal_strlit("compaction");
    reveal_strlit("assistant");
    reveal_strlit("user");
    assert(""@ =~= Seq::<char>::empty());
}

/// Whether `time` is the latest of the times of the entries, where any of them
/// has one.
pub open spec fn is_latest(events: Seq<JsonTree>, time: Option<u64>) -> bool {
    &&& forall|k: int|
        #![trigger events[k]]
        0 <= k < events.len() && timestamp_value(events[k].get("timestamp"@)) is Some ==> time is Some
            && timestamp_value(events[k].get("timestamp"@))->0 <= time->0
    &&& time is Some ==> exists|k: int|
        #![trigger events[k]]
        0 <= k < events.len() && timestamp_value(events[k].get("timestamp"@)) == time
}

/// What entries leave behind, one after another.
#[verifier::rlimit(50)]
pub proof fn lemma_run_counts<P: HostPolicy>(policy: P, events: Seq<JsonTree>, at: u64)
    requires
        run_fits::<P, Transcript>(policy, events, no_delta(at)),
    ensures
        ({
            let r = run::<P, Transcript>(policy, events, no_delta(at));
            &&& r.input == total(events, |e: JsonTree| tokens_of(e, "input"@))
            &&& r.output == total(events, |e: JsonTree| tokens_of(e, "output"@))
            &&& r.cache_read == total(events, |e: JsonTree| tokens_of(e, "cacheRead"@))
            &&& r.cache_create == total(events, |e: JsonTree| tokens_of(e, "cacheWrite"@))
            &&& r.turn_count == total(events, |e: JsonTree| turns_of(e))
            &&& r.compaction_count == total(events, |e: JsonTree| compactions_of(e))
            &&& is_last_said(events, |e: JsonTree| opt(model_of(e)), None, r.model)
            &&& is_last_said(events, |e: JsonTree| opt(effort_of(e)), None, r.effort)
            &&& is_last_said(events, |e: JsonTree| task_of(policy, e), Seq::empty(), r.current_task)
            &&& is_last_said(
                events,
                |e: JsonTree| opt(context_of(e)),
                None,
                if r.saw_usage {
                    Some(r.context_tokens as int)
                } else {
                    None
                },
            )
            &&& is_latest(events, r.last_activity)
        }),
    decreases events.len(),
{
    let r = run::<P, Transcript>(policy, events, no_delta(at));
    if events.len() > 0 {
        let most = events.drop_last();
        let e = events.last();
        let m = run::<P, Transcript>(policy, most, no_delta(at));
        lemma_run_counts(policy, most, at);
        lemma_step(policy, e, m);
        lemma_last_said(events, |e: JsonTree| opt(model_of(e)), None, r.model);
        lemma_last_said(events, |e: JsonTree| opt(effort_of(e)), None, r.effort);
        lemma_last_said(
            events,
            |e: JsonTree| task_of(policy, e),
            Seq::empty(),
            r.current_task,
        );
        lemma_last_said(
            events,
            |e: JsonTree| opt(context_of(e)),
            None,
            if r.saw_usage {
                Some(r.context_tokens as int)
            } else {
                None
            },
        );
        assert(is_latest(events, r.last_activity)) by {
            assert(events[events.len() - 1] == e);
            assert forall|k: int|
                #![trigger events[k]]
                0 <= k < events.len() && timestamp_value(
                    events[k].get("timestamp"@),
                ) is Some implies r.last_activity is Some && timestamp_value(
                events[k].get("timestamp"@),
            )->0 <= r.last_activity->0 by {
                if k < most.len() {
                    assert(most[k] == events[k]);
                }
            }
            if r.last_activity is Some && r.last_activity == m.last_activity {
                let k = choose|k: int|
                    #![trigger most[k]]
                    0 <= k < most.len() && timestamp_value(most[k].get("timestamp"@))
                        == m.last_activity;
                assert(events[k] == most[k]);
            }
        }
    }
}

/// The prompt that an entry would begin a session with.
pub open spec fn prompt_of<P: HostPolicy>(policy: P, event: JsonTree) -> Seq<char> {
    truncated(flattened(words_of_user(policy, event), true), 50)
}

/// What an entry shows of the assistant's first words.
pub open spec fn opening_of<P: HostPolicy>(policy: P, event: JsonTree) -> Seq<char> {
    if turns_of(event) == 1 && trim(words_of_turn(policy, event)).len() > 0 {
        truncated(words_of_turn(policy, event), 200)
    } else {
        Seq::empty()
    }
}

proof fn lemma_nothing_is_flattened()
    ensures
        truncated(flattened(Seq::empty(), true), 50) == Seq::<char>::empty(),
{
}

proof fn lemma_trim_keeps(s: Seq<char>)
    ensures
        s.len() == 0 ==> trim(s).len() == 0,
{
    if s.len() == 0 {
        assert(s =~= Seq::empty());
    }
}

/// What entries leave behind in the lists, one after another.
#[verifier::rlimit(50)]
pub proof fn lemma_run_lists<P: HostPolicy>(policy: P, events: Seq<JsonTree>, at: u64)
    requires
        run_fits::<P, Transcript>(policy, events, no_delta(at)),
    ensures
        ({
            let r = run::<P, Transcript>(policy, events, no_delta(at));
            let calls = told(events, |e: JsonTree| listed_of(policy, e));
            let spent = told(events, |e: JsonTree| spent_of(e));
            let said = told(events, |e: JsonTree| said_in(policy, e));
            &&& r.tool_calls == earliest(calls, 500)
            &&& r.token_history.map_values(|n: u64| n as int) == earliest(spent, 10_000)
            &&& (r.saw_usage <==> spent.len() > 0)
            &&& spent.len() == 0 ==> r.token_history.len() == 0
            &&& r.file_accesses == accesses(events)
            &&& newest(r.chat_messages, policy.chat_limit()) == newest(said, policy.chat_limit())
            &&& is_first_written(events, |e: JsonTree| prompt_of(policy, e), r.initial_prompt)
            &&& is_first_written(events, |e: JsonTree| opening_of(policy, e), r.first_assistant_text)
        }),
    decreases events.len(),
{
    let f = |e: JsonTree| listed_of(policy, e);
    let g = |e: JsonTree| spent_of(e);
    let h = |e: JsonTree| said_in(policy, e);
    let wide = |n: u64| n as int;
    let n = policy.chat_limit();
    let r = run::<P, Transcript>(policy, events, no_delta(at));
    if events.len() == 0 {
        assert(r.token_history.map_values(wide) =~= earliest(told(events, g), 10_000));
        assert(r.tool_calls =~= earliest(told(events, f), 500));
        assert(newest(r.chat_messages, n) =~= newest(told(events, h), n));
    } else {
        let most = events.drop_last();
        let e = events.last();
        let m = run::<P, Transcript>(policy, most, no_delta(at));
        lemma_run_lists(policy, most, at);
        lemma_run_counts(policy, events, at);
        lemma_step(policy, e, m);
        lemma_earliest(told(most, f), listed_of(policy, e), 500);
        lemma_earliest(told(most, g), spent_of(e), 10_000);
        assert(told(events, g).len() == told(most, g).len() + spent_of(e).len());
        assert(m.token_history.map_values(wide).len() == m.token_history.len());
        if told(events, g).len() == 0 {
            assert(spent_of(e) =~= Seq::empty());
            assert(r.token_history.map_values(wide).len() == r.token_history.len());
        }
        let said = said_in(policy, e);
        lemma_newest(m.chat_messages, said, n);
        lemma_newest(told(most, h), said, n);
        lemma_newest(m.chat_messages + said, Seq::empty(), n);
        if said.len() == 0 {
            assert(m.chat_messages + said =~= m.chat_messages);
            assert(told(most, h) + said =~= told(most, h));
        }
        lemma_nothing_is_flattened();
        if words_of_user(policy, e).len() == 0 {
            assert(words_of_user(policy, e) =~= Seq::empty());
        }
        lemma_trim_keeps(words_of_turn(policy, e));
        if m.initial_prompt.len() == 0 {
            assert(m.initial_prompt =~= Seq::empty());
        }
        if m.first_assistant_text.len() == 0 {
            assert(m.first_assistant_text =~= Seq::empty());
        }
        lemma_first_written(
            events,
            |e: JsonTree| prompt_of(policy, e),
            m.initial_prompt,
            r.initial_prompt,
        );
        lemma_first_written(
            events,
            |e: JsonTree| opening_of(policy, e),
            m.first_assistant_text,
            r.first_assistant_text,
        );
    }
}

proof fn lemma_run_fits<P: HostPolicy>(policy: P, events: Seq<JsonTree>, at: u64)
    requires
        total(events, |e: JsonTree| tokens_of(e, "input"@)) <= u64::MAX,
        total(events, |e: JsonTree| tokens_of(e, "output"@)) <= u64::MAX,
        total(events, |e: JsonTree| tokens_of(e, "cacheRead"@)) <= u64::MAX,
        total(events, |e: JsonTree| tokens_of(e, "cacheWrite"@)) <= u64::MAX,
        total(events, |e: JsonTree| turns_of(e)) <= u32::MAX,
        total(events, |e: JsonTree| compactions_of(e)) <= u32::MAX,
        forall|i: int|
            0 <= i < events.len() && spent_of(#[trigger] events[i]).len() > 0 ==> spent_of(
                events[i],
            )[0] <= u64::MAX,
    ensures
        run_fits::<P, Transcript>(policy, events, no_delta(at)),
    decreases events.len(),
{
    if events.len() > 0 {
        let most = events.drop_last();
        let e = events.last();
        lemma_total_grows(events, |e: JsonTree| tokens_of(e, "input"@));
        lemma_total_grows(events, |e: JsonTree| tokens_of(e, "output"@));
        lemma_total_grows(events, |e: JsonTree| tokens_of(e, "cacheRead"@));
        lemma_total_grows(events, |e: JsonTree| tokens_of(e, "cacheWrite"@));
        lemma_total_grows(events, |e: JsonTree| turns_of(e));
        lemma_total_grows(events, |e: JsonTree| compactions_of(e));
        assert forall|i: int| 0 <= i < most.len() && spent_of(#[trigger] most[i]).len()
            > 0 implies spent_of(most[i])[0] <= u64::MAX by {
            assert(spent_of(events[i]).len() > 0);
        }
        lemma_run_fits(policy, most, at);
        lemma_run_counts(policy, most, at);
        assert(events[events.len() - 1] == e);
        lemma_event_fits(policy, events, at);
    }
}

/// A look is taken where the log is given from the place on up to which it was
/// read, and the sums of what its events count fit what is counted in.
pub proof fn law_look_is_taken<P: HostPolicy>(policy: P, c: CacheView, log: LogFile)
    requires
        is_bounded(policy, c),
        is_given(log),
        log.start <= standing(c, log).offset,
        ({
            let events = new_events(c, log);
            let before = standing(c, log);
            &&& before.total_input + total(events, |e: JsonTree| tokens_of(e, "input"@)) <= u64::MAX
            &&& before.total_output + total(events, |e: JsonTree| tokens_of(e, "output"@)) <= u64::MAX
            &&& before.total_cache_read + total(
                events,
                |e: JsonTree| tokens_of(e, "cacheRead"@),
            ) <= u64::MAX
            &&& before.total_cache_create + total(
                events,
                |e: JsonTree| tokens_of(e, "cacheWrite"@),
            ) <= u64::MAX
            &&& before.turn_count + total(events, |e: JsonTree| turns_of(e)) <= u32::MAX
            &&& before.compaction_count + total(events, |e: JsonTree| compactions_of(e)) <= u32::MAX
            &&& forall|i: int|
                0 <= i < events.len() && spent_of(#[trigger] events[i]).len() > 0 ==> spent_of(
                    events[i],
                )[0] <= u64::MAX
        }),
    ensures
        look_fits::<P, Transcript>(policy, c, Some(log)),
{
    let events = new_events(c, log);
    let before = standing(c, log);
    lemma_run_fits(policy, events, before.offset);
    lemma_run_counts(policy, events, before.offset);
    let tail = log.bytes@.skip(before.offset - log.start);
    if tail.len() == 0 {
        assert(events =~= Seq::empty());
    }
}

proof fn lemma_event_fits<P: HostPolicy>(policy: P, events: Seq<JsonTree>, at: u64)
    requires
        events.len() > 0,
        run_fits::<P, Transcript>(policy, events.drop_last(), no_delta(at)),
        total(events, |e: JsonTree| tokens_of(e, "input"@)) <= u64::MAX,
        total(events, |e: JsonTree| tokens_of(e, "output"@)) <= u64::MAX,
        total(events, |e: JsonTree| tokens_of(e, "cacheRead"@)) <= u64::MAX,
        total(events, |e: JsonTree| tokens_of(e, "cacheWrite"@)) <= u64::MAX,
        total(events, |e: JsonTree| turns_of(e)) <= u32::MAX,
        total(events, |e: JsonTree| compactions_of(e)) <= u32::MAX,
        spent_of(events.last()).len() > 0 ==> spent_of(events.last())[0] <= u64::MAX,
    ensures
        crate::pi::transcript::transcript_fits(
            events.last(),
            run::<P, Transcript>(policy, events.drop_last(), no_delta(at)),
        ),
{
    lemma_run_counts(policy, events.drop_last(), at);
    lits();
}

} // verus!
