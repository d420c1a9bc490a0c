//! The transcript of a Pi session.
use crate::activity::seen_at;
use crate::activity::usage_fits;
use crate::activity::with_assistant_text;
use crate::activity::with_compaction;
use crate::activity::with_effort;
use crate::activity::with_model;
use crate::activity::with_tool_call;
use crate::activity::with_turn;
use crate::activity::with_usage;
use crate::activity::with_user_text;
use crate::activity::DeltaView;
use crate::activity::SessionDelta;
use crate::activity::Usage;
use crate::cache::alike;
use crate::cache::history_is_noted;
use crate::cache::is_bounded;
use crate::cache::lemma_assistant_continues;
use crate::cache::lemma_compaction_continues;
use crate::cache::lemma_effort_continues;
use crate::cache::lemma_model_continues;
use crate::cache::lemma_time_continues;
use crate::cache::lemma_tool_continues;
use crate::cache::lemma_tool_lists;
use crate::cache::lemma_turn_continues;
use crate::cache::lemma_usage_continues;
use crate::cache::lemma_usage_is_seen;
use crate::cache::lemma_usage_lists;
use crate::cache::lemma_user_continues;
use crate::cache::lists_fit;
use crate::cache::same_lists;
use crate::cache::CacheView;
use crate::content::block_text;
use crate::content::called_tool;
use crate::content::count_at;
use crate::content::count_of;
use crate::content::event_type;
use crate::content::extract_text_from_content;
use crate::content::file_arg;
use crate::content::or_empty;
use crate::content::or_null;
use crate::content::parse_tool_args;
use crate::content::shown_arg;
use crate::content::shown_text;
use crate::content::str_is;
use crate::content::text_of_block;
use crate::content::BlockKinds;
use crate::content::ToolKind;
use crate::json::Json;
use crate::json::JsonTree;
use crate::jsonl::has_short_lines;
use crate::jsonl::trees;
use crate::model::FileOp;
use crate::policy::HostPolicy;
use crate::tailing::countable;
use crate::tailing::law_log_is_read_in_parts;
use crate::tailing::log_delta;
use crate::tailing::parse_log;
use crate::tailing::law_context_is_read_in_parts;
use crate::tailing::looked_once;
use crate::tailing::looked_twice;
use crate::tailing::parts_agree;
use crate::tailing::parts_fit;
use crate::tailing::LogFormat;
use crate::text::is_blank;
use crate::text::text_eq;
use crate::text::trim;
use crate::timestamp::timestamp_ms;
use crate::timestamp::timestamp_value;
use vstd::prelude::*;
use vstd::string::StringExecFns;

verus! {

/// What the arguments of a tool hold.
pub open spec fn tool_kind(name: Seq<char>) -> ToolKind {
    if name == "bash"@ || name == "Bash"@ || name == "Shell"@ {
        ToolKind::Shell
    } else if name == "edit"@ || name == "Edit"@ || name == "write"@ || name == "Write"@
        || name == "read"@ || name == "Read"@ || name == "grep"@ || name == "Grep"@
        || name == "glob"@ || name == "Glob"@ || name == "find"@ || name == "Find"@
        || name == "ls"@ || name == "Ls"@ {
        ToolKind::File
    } else {
        ToolKind::Other
    }
}

/// What a tool does to its file.
pub open spec fn file_op(name: Seq<char>) -> Option<FileOp> {
    if name == "read"@ || name == "Read"@ || name == "ls"@ || name == "Ls"@
        || name == "glob"@ || name == "Glob"@ || name == "find"@ || name == "Find"@
        || name == "grep"@ || name == "Grep"@ {
        Some(FileOp::Read)
    } else if name == "write"@ || name == "Write"@ {
        Some(FileOp::Write)
    } else if name == "edit"@ || name == "Edit"@ {
        Some(FileOp::Edit)
    } else {
        None
    }
}

/// What the arguments of a tool hold.
pub fn tool_kind_of(name: &str) -> (r: ToolKind)
    ensures
        r == tool_kind(name@),
{
    if text_eq(name, "bash") || text_eq(name, "Bash") || text_eq(name, "Shell") {
        ToolKind::Shell
    } else if text_eq(name, "edit") || text_eq(name, "Edit") || text_eq(name, "write")
        || text_eq(name, "Write") || text_eq(name, "read") || text_eq(name, "Read")
        || text_eq(name, "grep") || text_eq(name, "Grep") || text_eq(name, "glob")
        || text_eq(name, "Glob") || text_eq(name, "find") || text_eq(name, "Find")
        || text_eq(name, "ls") || text_eq(name, "Ls") {
        ToolKind::File
    } else {
        ToolKind::Other
    }
}

/// What a tool does to its file.
pub fn file_op_for(tool: &str) -> (r: Option<FileOp>)
    ensures
        r == file_op(tool@),
{
    if text_eq(tool, "read") || text_eq(tool, "Read") || text_eq(tool, "ls")
        || text_eq(tool, "Ls") || text_eq(tool, "glob") || text_eq(tool, "Glob")
        || text_eq(tool, "find") || text_eq(tool, "Find") || text_eq(tool, "grep")
        || text_eq(tool, "Grep") {
        Some(FileOp::Read)
    } else if text_eq(tool, "write") || text_eq(tool, "Write") {
        Some(FileOp::Write)
    } else if text_eq(tool, "edit") || text_eq(tool, "Edit") {
        Some(FileOp::Edit)
    } else {
        None
    }
}

/// The tokens that a turn names.
pub open spec fn turn_usage(u: JsonTree) -> Usage {
    Usage {
        input: count_of(u, "input"@),
        output: count_of(u, "output"@),
        cache_read: count_of(u, "cacheRead"@),
        cache_create: count_of(u, "cacheWrite"@),
    }
}

/// The tokens of a turn's input side, which fill the context window.
pub open spec fn turn_context(u: Usage) -> int {
    u.input + u.cache_read
}

/// What the text blocks say, one right after another.
pub open spec fn spoken(blocks: Seq<JsonTree>) -> Seq<char>
    decreases blocks.len(),
{
    if blocks.len() == 0 {
        Seq::empty()
    } else {
        spoken(blocks.drop_last()) + or_empty(block_text(blocks.last(), BlockKinds::Text))
    }
}

/// One content block: a call of a tool, or nothing of interest.
pub open spec fn block_step<P: HostPolicy>(policy: P, block: JsonTree, d: DeltaView) -> DeltaView {
    if event_type(block) == "toolCall"@ {
        let name = called_tool(block);
        let args = or_null(block.get("arguments"@));
        with_tool_call(
            d,
            name,
            shown_arg(policy, tool_kind(name), args),
            file_op(name),
            file_arg(tool_kind(name), args),
        )
    } else {
        d
    }
}

/// The tools that the content blocks call.
pub open spec fn blocks_step<P: HostPolicy>(
    policy: P,
    blocks: Seq<JsonTree>,
    d: DeltaView,
) -> DeltaView
    decreases blocks.len(),
{
    if blocks.len() == 0 {
        d
    } else {
        block_step(policy, blocks.last(), blocks_step(policy, blocks.drop_last(), d))
    }
}

/// The content blocks of a message.
pub open spec fn content_blocks(msg: JsonTree) -> Seq<JsonTree> {
    match msg.get("content"@) {
        Some(JsonTree::Array(blocks)) => blocks,
        _ => Seq::empty(),
    }
}

/// What is shown of what the assistant wrote.
pub open spec fn shown_speech<P: HostPolicy>(policy: P, msg: JsonTree) -> Seq<char> {
    policy.redacted(policy.sanitized(spoken(content_blocks(msg))))
}

/// The tokens and the model that a turn names.
pub open spec fn turn_step(msg: JsonTree, d: DeltaView) -> DeltaView {
    let turn = with_turn(d);
    let counted = match msg.get("usage"@) {
        Some(u) => with_usage(
            DeltaView { saw_usage: true, ..turn },
            turn_usage(u),
            turn_context(turn_usage(u)),
        ),
        None => turn,
    };
    with_model(counted, msg.get_str("model"@))
}

/// A turn of the assistant.
pub open spec fn assistant_step<P: HostPolicy>(
    policy: P,
    msg: JsonTree,
    d: DeltaView,
) -> DeltaView {
    let acted = blocks_step(policy, content_blocks(msg), turn_step(msg, d));
    if trim(shown_speech(policy, msg)).len() > 0 {
        with_assistant_text(acted, policy, shown_speech(policy, msg))
    } else {
        acted
    }
}

/// A message of the conversation.
pub open spec fn message_step<P: HostPolicy>(
    policy: P,
    event: JsonTree,
    d: DeltaView,
) -> DeltaView {
    match event.get("message"@) {
        None => d,
        Some(msg) => {
            let role = or_empty(msg.get_str("role"@));
            if role == "assistant"@ {
                assistant_step(policy, msg, d)
            } else if role == "user"@ {
                with_user_text(
                    d,
                    policy,
                    shown_text(policy, msg.get("content"@), BlockKinds::Text),
                )
            } else {
                d
            }
        },
    }
}

/// What one entry adds.
pub open spec fn transcript_step<P: HostPolicy>(
    policy: P,
    event: JsonTree,
    d: DeltaView,
) -> DeltaView {
    let seen = seen_at(d, timestamp_value(event.get("timestamp"@)));
    let kind = event_type(event);
    if kind == "message"@ {
        message_step(policy, event, seen)
    } else if kind == "model_change"@ {
        with_model(seen, event.get_str("modelId"@))
    } else if kind == "thinking_level_change"@ {
        match event.get_str("thinkingLevel"@) {
            Some(level) => with_effort(seen, level),
            None => seen,
        }
    } else if kind == "compaction"@ {
        with_compaction(seen)
    } else {
        seen
    }
}

/// Whether the counts that a turn enters stay within their width.
pub open spec fn turn_fits(msg: JsonTree, d: DeltaView) -> bool {
    &&& d.turn_count < u32::MAX
    &&& match msg.get("usage"@) {
        Some(u) => usage_fits(d, turn_usage(u), turn_context(turn_usage(u))),
        None => true,
    }
}

/// Whether the counts that an entry enters stay within their width.
pub open spec fn transcript_fits(event: JsonTree, d: DeltaView) -> bool {
    let kind = event_type(event);
    if kind == "message"@ {
        match event.get("message"@) {
            Some(msg) => or_empty(msg.get_str("role"@)) == "assistant"@ ==> turn_fits(msg, d),
            None => true,
        }
    } else if kind == "compaction"@ {
        d.compaction_count < u32::MAX
    } else {
        true
    }
}

/// The tokens that a turn names.
fn usage_at(u: &Json) -> (r: Usage)
    ensures
        r == turn_usage(u@),
{
    Usage {
        input: count_at(u, "input"),
        output: count_at(u, "output"),
        cache_read: count_at(u, "cacheRead"),
        cache_create: count_at(u, "cacheWrite"),
    }
}

/// Whether the counts that a turn enters stay within their width.
fn turn_event_fits(msg: &Json, delta: &SessionDelta) -> (r: bool)
    ensures
        r == turn_fits(msg@, delta@),
{
    delta.turn_count < 0xffff_ffff && match msg.get("usage") {
        Some(u) => {
            let usage = usage_at(u);
            delta.usage_fits(usage, usage.input as u128 + usage.cache_read as u128)
        },
        None => true,
    }
}

/// Whether [`handle_transcript_event`] keeps every count within its width.
pub fn transcript_event_fits(val: &Json, delta: &SessionDelta) -> (r: bool)
    ensures
        r == transcript_fits(val@, delta@),
{
    let kind = val.get_str("type");
    if str_is(kind, "message") {
        match val.get("message") {
            Some(msg) => !str_is(msg.get_str("role"), "assistant") || turn_event_fits(msg, delta),
            None => true,
        }
    } else if str_is(kind, "compaction") {
        delta.compaction_count < 0xffff_ffff
    } else {
        true
    }
}

/// Adds the tools that the content blocks call, and gathers what they say.
fn handle_blocks<P: HostPolicy>(policy: &P, blocks: &Vec<Json>, delta: &mut SessionDelta) -> (r:
    String)
    ensures
        r@ == spoken(trees(blocks@)),
        final(delta)@ == blocks_step(*policy, trees(blocks@), old(delta)@),
{
    let ghost all = trees(blocks@);
    let ghost start = delta@;
    let mut text = String::new();
    let mut i: usize = 0;
    assert(all.take(0) =~= Seq::empty());
    while i < blocks.len()
        invariant
            i <= blocks@.len(),
            all == trees(blocks@),
            text@ == spoken(all.take(i as int)),
            delta@ == blocks_step(*policy, all.take(i as int), start),
        decreases blocks@.len() - i,
    {
        assert(all.take(i + 1).drop_last() =~= all.take(i as int));
        assert(all.take(i + 1).last() == blocks@[i as int]@);
        let block = &blocks[i];
        let ghost before = text@;
        match text_of_block(block, BlockKinds::Text) {
            Some(t) => {
                text.append(t);
            },
            None => {
                assert(before + Seq::<char>::empty() =~= before);
            },
        }
        if str_is(block.get_str("type"), "toolCall") {
            let name = match block.get_str("name") {
                Some(n) => n,
                None => "?",
            };
            let none = Json::Null;
            let args = match block.get("arguments") {
                Some(a) => a,
                None => &none,
            };
            let (arg, path) = parse_tool_args(policy, tool_kind_of(name), args);
            delta.add_tool_call(name, arg.as_str(), file_op_for(name), path);
        }
        i += 1;
    }
    assert(all.take(i as int) =~= all);
    text
}

/// Adds a turn of the assistant.
fn handle_assistant<P: HostPolicy>(policy: &P, msg: &Json, delta: &mut SessionDelta)
    requires
        turn_fits(msg@, old(delta)@),
    ensures
        final(delta)@ == assistant_step(*policy, msg@, old(delta)@),
{
    delta.turn_count = delta.turn_count + 1;
    if let Some(u) = msg.get("usage") {
        delta.saw_usage = true;
        let usage = usage_at(u);
        let context = usage.input + usage.cache_read;
        delta.add_usage(usage, context);
    }
    delta.set_model(msg.get_str("model"));
    assert(delta@ == turn_step(msg@, old(delta)@));
    let mut text = String::new();
    assert(text@ =~= spoken(Seq::empty()));
    if let Some(Json::Array(blocks)) = msg.get("content") {
        assert(content_blocks(msg@) =~= trees(blocks@));
        text = handle_blocks(policy, blocks, delta);
    }
    let safe = policy.sanitize_terminal_text(text.as_str());
    let cleaned = policy.redact_secrets(safe.as_str());
    if !is_blank(cleaned.as_str()) {
        delta.add_assistant_text(policy, cleaned);
    }
}

/// Adds one entry of a transcript.
pub fn handle_transcript_event<P: HostPolicy>(policy: &P, val: &Json, delta: &mut SessionDelta)
    requires
        transcript_fits(val@, old(delta)@),
    ensures
        final(delta)@ == transcript_step(*policy, val@, old(delta)@),
{
    delta.see_at(timestamp_ms(val.get("timestamp")));
    let kind = val.get_str("type");
    if str_is(kind, "message") {
        if let Some(msg) = val.get("message") {
            let role = msg.get_str("role");
            if str_is(role, "assistant") {
                handle_assistant(policy, msg, delta);
            } else if str_is(role, "user") {
                let text = extract_text_from_content(policy, msg.get("content"), BlockKinds::Text);
                delta.add_user_text(policy, text);
            }
        }
    } else if str_is(kind, "model_change") {
        delta.set_model(val.get_str("modelId"));
    } else if str_is(kind, "thinking_level_change") {
        if let Some(level) = val.get_str("thinkingLevel") {
            delta.effort = Some(level.to_owned());
        }
    } else if str_is(kind, "compaction") {
        delta.compaction_count = delta.compaction_count + 1;
    }
}

proof fn lemma_blocks_continue<P: HostPolicy>(
    policy: P,
    blocks: Seq<JsonTree>,
    c: CacheView,
    d: DeltaView,
    e: CacheView,
    f: DeltaView,
)
    requires
        alike(policy, c, d, e, f),
    ensures
        alike(policy, c, blocks_step(policy, blocks, d), e, blocks_step(policy, blocks, f)),
    decreases blocks.len(),
{
    if blocks.len() > 0 {
        let most = blocks.drop_last();
        lemma_blocks_continue(policy, most, c, d, e, f);
        let name = called_tool(blocks.last());
        let args = or_null(blocks.last().get("arguments"@));
        lemma_tool_continues(
            policy,
            c,
            blocks_step(policy, most, d),
            e,
            blocks_step(policy, most, f),
            name,
            shown_arg(policy, tool_kind(name), args),
            file_op(name),
            file_arg(tool_kind(name), args),
        );
    }
}

proof fn lemma_turn_step_continues<P: HostPolicy>(
    policy: P,
    msg: JsonTree,
    c: CacheView,
    d: DeltaView,
    e: CacheView,
    f: DeltaView,
)
    requires
        alike(policy, c, d, e, f),
        turn_fits(msg, d),
        turn_fits(msg, f),
    ensures
        alike(policy, c, turn_step(msg, d), e, turn_step(msg, f)),
{
    let d1 = with_turn(d);
    let f1 = with_turn(f);
    lemma_turn_continues(policy, c, d, e, f);
    match msg.get("usage"@) {
        Some(u) => {
            let usage = turn_usage(u);
            let context = turn_context(usage);
            let d2 = DeltaView { saw_usage: true, ..d1 };
            let f2 = DeltaView { saw_usage: true, ..f1 };
            lemma_usage_is_seen(policy, c, d1, e, f1);
            lemma_usage_continues(policy, c, d2, e, f2, usage, context);
            lemma_model_continues(
                policy,
                c,
                with_usage(d2, usage, context),
                e,
                with_usage(f2, usage, context),
                msg.get_str("model"@),
            );
        },
        None => {
            lemma_model_continues(policy, c, d1, e, f1, msg.get_str("model"@));
        },
    }
}

proof fn lemma_step_continues<P: HostPolicy>(
    policy: P,
    event: JsonTree,
    c: CacheView,
    d: DeltaView,
    e: CacheView,
    f: DeltaView,
)
    requires
        alike(policy, c, d, e, f),
        transcript_fits(event, d),
        transcript_fits(event, f),
    ensures
        alike(policy, c, transcript_step(policy, event, d), e, transcript_step(policy, event, f)),
{
    let time = timestamp_value(event.get("timestamp"@));
    let d1 = seen_at(d, time);
    let f1 = seen_at(f, time);
    lemma_time_continues(policy, c, d, e, f, time);
    let kind = event_type(event);
    if kind == "message"@ {
        if let Some(msg) = event.get("message"@) {
            let role = or_empty(msg.get_str("role"@));
            if role == "assistant"@ {
                lemma_turn_step_continues(policy, msg, c, d1, e, f1);
                let blocks = content_blocks(msg);
                let d2 = turn_step(msg, d1);
                let f2 = turn_step(msg, f1);
                lemma_blocks_continue(policy, blocks, c, d2, e, f2);
                lemma_assistant_continues(
                    policy,
                    c,
                    blocks_step(policy, blocks, d2),
                    e,
                    blocks_step(policy, blocks, f2),
                    shown_speech(policy, msg),
                );
            } else if role == "user"@ {
                lemma_user_continues(
                    policy,
                    c,
                    d1,
                    e,
                    f1,
                    shown_text(policy, msg.get("content"@), BlockKinds::Text),
                );
            }
        }
    } else if kind == "model_change"@ {
        lemma_model_continues(policy, c, d1, e, f1, event.get_str("modelId"@));
    } else if kind == "thinking_level_change"@ {
        if let Some(level) = event.get_str("thinkingLevel"@) {
            lemma_effort_continues(policy, c, d1, e, f1, level);
        }
    } else if kind == "compaction"@ {
        lemma_compaction_continues(policy, c, d1, e, f1);
    }
}

proof fn lemma_blocks_grow<P: HostPolicy>(policy: P, blocks: Seq<JsonTree>, d: DeltaView)
    ensures
        d.tool_calls.len() <= blocks_step(policy, blocks, d).tool_calls.len(),
        d.token_history == blocks_step(policy, blocks, d).token_history,
        d.saw_usage == blocks_step(policy, blocks, d).saw_usage,
        d.context_tokens == blocks_step(policy, blocks, d).context_tokens,
    decreases blocks.len(),
{
    if blocks.len() > 0 {
        lemma_blocks_grow(policy, blocks.drop_last(), d);
    }
}

proof fn lemma_step_grows<P: HostPolicy>(policy: P, event: JsonTree, d: DeltaView)
    ensures
        d.tool_calls.len() <= transcript_step(policy, event, d).tool_calls.len(),
        d.token_history.len() <= transcript_step(policy, event, d).token_history.len(),
        history_is_noted(d) ==> history_is_noted(transcript_step(policy, event, d)),
{
    if let Some(msg) = event.get("message"@) {
        let d1 = seen_at(d, timestamp_value(event.get("timestamp"@)));
        lemma_blocks_grow(policy, content_blocks(msg), turn_step(msg, d1));
    }
}

proof fn lemma_blocks_lists<P: HostPolicy>(
    policy: P,
    blocks: Seq<JsonTree>,
    c: CacheView,
    d: DeltaView,
    e: CacheView,
    f: DeltaView,
)
    requires
        same_lists(c, d, e, f),
        lists_fit(c, blocks_step(policy, blocks, d)),
    ensures
        same_lists(c, blocks_step(policy, blocks, d), e, blocks_step(policy, blocks, f)),
    decreases blocks.len(),
{
    if blocks.len() > 0 {
        let most = blocks.drop_last();
        let block = blocks.last();
        lemma_blocks_lists(policy, most, c, d, e, f);
        if event_type(block) == "toolCall"@ {
            let name = called_tool(block);
            let args = or_null(block.get("arguments"@));
            lemma_tool_lists(
                c,
                blocks_step(policy, most, d),
                e,
                blocks_step(policy, most, f),
                name,
                shown_arg(policy, tool_kind(name), args),
                file_op(name),
                file_arg(tool_kind(name), args),
            );
        }
    }
}

proof fn lemma_step_lists<P: HostPolicy>(
    policy: P,
    event: JsonTree,
    c: CacheView,
    d: DeltaView,
    e: CacheView,
    f: DeltaView,
)
    requires
        same_lists(c, d, e, f),
        lists_fit(c, transcript_step(policy, event, d)),
    ensures
        same_lists(c, transcript_step(policy, event, d), e, transcript_step(policy, event, f)),
{
    let time = timestamp_value(event.get("timestamp"@));
    let d1 = seen_at(d, time);
    let f1 = seen_at(f, time);
    if event_type(event) == "message"@ {
        if let Some(msg) = event.get("message"@) {
            if or_empty(msg.get_str("role"@)) == "assistant"@ {
                let blocks = content_blocks(msg);
                lemma_blocks_grow(policy, blocks, turn_step(msg, d1));
                if let Some(u) = msg.get("usage"@) {
                    let usage = turn_usage(u);
                    lemma_usage_lists(
                        c,
                        DeltaView { saw_usage: true, ..with_turn(d1) },
                        e,
                        DeltaView { saw_usage: true, ..with_turn(f1) },
                        usage,
                        turn_context(usage),
                    );
                }
                lemma_blocks_lists(policy, blocks, c, turn_step(msg, d1), e, turn_step(msg, f1));
            }
        }
    }
}

/// The format of these transcripts.
pub struct Transcript {

}

impl<P: HostPolicy> LogFormat<P> for Transcript {
    open spec fn step(policy: P, event: JsonTree, d: DeltaView) -> DeltaView {
        transcript_step(policy, event, d)
    }

    open spec fn fits(event: JsonTree, d: DeltaView) -> bool {
        transcript_fits(event, d)
    }

    fn event_fits(val: &Json, delta: &SessionDelta) -> (r: bool) {
        transcript_event_fits(val, delta)
    }

    fn handle_event(policy: &P, val: &Json, delta: &mut SessionDelta) {
        handle_transcript_event(policy, val, delta)
    }

    proof fn step_continues(
        policy: P,
        event: JsonTree,
        c: CacheView,
        d: DeltaView,
        e: CacheView,
        f: DeltaView,
    ) {
        lemma_step_continues(policy, event, c, d, e, f);
    }

    proof fn step_grows(policy: P, event: JsonTree, d: DeltaView) {
        lemma_step_grows(policy, event, d);
    }

    proof fn step_lists(
        policy: P,
        event: JsonTree,
        c: CacheView,
        d: DeltaView,
        e: CacheView,
        f: DeltaView,
    ) {
        lemma_step_lists(policy, event, c, d, e, f);
    }

    open spec fn names_tokens(event: JsonTree) -> bool {
        true
    }

    proof fn step_context(
        policy: P,
        event: JsonTree,
        c: CacheView,
        d: DeltaView,
        e: CacheView,
        f: DeltaView,
    ) {
        if let Some(msg) = event.get("message"@) {
            let time = timestamp_value(event.get("timestamp"@));
            let blocks = content_blocks(msg);
            lemma_blocks_grow(policy, blocks, turn_step(msg, seen_at(d, time)));
            lemma_blocks_grow(policy, blocks, turn_step(msg, seen_at(f, time)));
        }
    }
}

/// Reads the new part of a transcript: the bytes of a file of `file_len` bytes
/// from `from_offset` on. There is no answer where a count would outgrow its
/// width.
pub fn parse_transcript<P: HostPolicy>(
    policy: &P,
    file_len: u64,
    tail: &[u8],
    from_offset: u64,
) -> (r: Option<SessionDelta>)
    requires
        from_offset + tail@.len() <= u64::MAX,
    ensures
        match r {
            Some(d) => countable::<P, Transcript>(*policy, file_len, tail@, from_offset) && d@
                == log_delta::<P, Transcript>(*policy, file_len, tail@, from_offset),
            None => !countable::<P, Transcript>(*policy, file_len, tail@, from_offset),
        },
{
    parse_log::<P, Transcript>(policy, file_len, tail, from_offset)
}

/// A transcript that is read while its last line may still be unfinished, and
/// again once it has grown, tells the same of the session as one look at the
/// grown transcript: the new bytes are counted once, and none is missed. The
/// same tokens fill the context window, too.
pub proof fn law_transcript_is_read_in_parts<P: HostPolicy>(
    policy: P,
    c: CacheView,
    a: Seq<u8>,
    b: Seq<u8>,
)
    requires
        is_bounded(policy, c),
        has_short_lines(a),
        c.offset + a.len() + b.len() <= u64::MAX,
        parts_fit::<P, Transcript>(policy, c, a, b),
    ensures
        parts_agree::<P, Transcript>(policy, c, a, b),
        looked_twice::<P, Transcript>(policy, c, a, b).context_tokens == looked_once::<
            P,
            Transcript,
        >(policy, c, a + b).context_tokens,
{
    law_log_is_read_in_parts::<P, Transcript>(policy, c, a, b);
    law_context_is_read_in_parts::<P, Transcript>(policy, c, a, b);
}

} // verus!
