//! The event log of a kimi-code session.
use crate::activity::seen_at;
use crate::activity::usage_fits;
use crate::activity::with_assistant_text;
use crate::activity::with_model;
use crate::activity::with_tool_call;
use crate::activity::with_turn;
use crate::activity::with_usage;
use crate::activity::with_user_text;
use crate::activity::DeltaView;
use crate::activity::SessionDelta;
use crate::activity::Usage;
use crate::cache::alike;
use crate::cache::is_bounded;
use crate::cache::lemma_assistant_continues;
use crate::cache::lemma_model_continues;
use crate::cache::lemma_time_continues;
use crate::cache::lemma_tool_continues;
use crate::cache::lemma_tool_lists;
use crate::cache::lemma_turn_continues;
use crate::cache::lemma_usage_continues;
use crate::cache::lemma_usage_is_seen;
use crate::cache::lemma_usage_lists;
use crate::cache::lemma_user_continues;
use crate::cache::lists_fit;
use crate::cache::outlook;
use crate::cache::same_lists;
use crate::cache::CacheView;
use crate::content::called_tool;
use crate::content::count_at;
use crate::content::count_of;
use crate::content::event_type;
use crate::content::extract_text_from_content;
use crate::content::file_arg;
use crate::content::join_blocks;
use crate::content::joined_blocks;
use crate::content::or_empty;
use crate::content::or_null;
use crate::content::parse_tool_args;
use crate::content::shown_arg;
use crate::content::shown_text;
use crate::content::str_is;
use crate::content::BlockKinds;
use crate::content::ToolKind;
use crate::json::opt_tree;
use crate::json::Json;
use crate::json::JsonTree;
use crate::jsonl::has_short_lines;
use crate::jsonl::log_documents;
use crate::jsonl::trees;
use crate::model::FileOp;
use crate::number::whole_of_double;
use crate::number::whole_part;
use crate::policy::HostPolicy;
use crate::tailing::countable;
use crate::tailing::law_log_is_read_in_parts;
use crate::tailing::log_delta;
use crate::tailing::parse_log;
use crate::tailing::all_name_tokens;
use crate::tailing::law_context_is_read_in_parts;
use crate::tailing::left_over;
use crate::tailing::looked_once;
use crate::tailing::looked_twice;
use crate::tailing::parts_agree;
use crate::tailing::parts_fit;
use crate::tailing::LogFormat;
use crate::text::chars_of;
use crate::text::clean_prompt;
use crate::text::flattened;
use crate::text::is_blank;
use crate::text::parse_u64;
use crate::text::parsed_u64;
use crate::text::text_eq;
use crate::text::trim;
use crate::text::truncate;
use crate::text::truncated;
use vstd::prelude::*;

verus! {

/// The time of an event, in milliseconds from 1970: a number, or a string that
/// denotes a whole one.
pub open spec fn event_time(v: Option<JsonTree>) -> Option<u64> {
    match v {
        None => None,
        Some(x) => match (x.as_u64(), x.as_bits(), x.as_str()) {
            (Some(ms), _, _) => Some(ms),
            (None, Some(bits), _) => Some(whole_part(bits)),
            (None, None, Some(s)) => parsed_u64(s),
            (None, None, None) => None,
        },
    }
}

/// The time of an event, in milliseconds from 1970.
pub fn time_to_systemtime(v: Option<&Json>) -> (r: Option<u64>)
    ensures
        r == event_time(opt_tree(v)),
{
    match v {
        None => None,
        Some(x) => match x.as_u64() {
            Some(ms) => Some(ms),
            None => match x.as_bits() {
                Some(bits) => Some(whole_of_double(bits)),
                None => match x.as_str() {
                    Some(s) => parse_u64(chars_of(s).as_slice()),
                    None => None,
                },
            },
        },
    }
}

/// What the arguments of a tool hold.
pub open spec fn tool_kind(name: Seq<char>) -> ToolKind {
    if name == "Shell"@ {
        ToolKind::Shell
    } else if name == "WriteFile"@ || name == "StrReplaceFile"@ || name == "ReadFile"@ || name
        == "ReadMediaFile"@ || name == "Edit"@ || name == "Write"@ || name == "Read"@ {
        ToolKind::File
    } else {
        ToolKind::Other
    }
}

/// What a tool does to its file.
pub open spec fn file_op(name: Seq<char>) -> Option<FileOp> {
    if name == "ReadFile"@ || name == "ReadMediaFile"@ || name == "Read"@ {
        Some(FileOp::Read)
    } else if name == "WriteFile"@ || name == "Write"@ {
        Some(FileOp::Write)
    } else if name == "StrReplaceFile"@ || name == "Edit"@ {
        Some(FileOp::Edit)
    } else {
        None
    }
}

/// What the arguments of a tool hold.
pub fn tool_kind_of(name: &str) -> (r: ToolKind)
    ensures
        r == tool_kind(name@),
{
    if text_eq(name, "Shell") {
        ToolKind::Shell
    } else if text_eq(name, "WriteFile") || text_eq(name, "StrReplaceFile") || text_eq(
        name,
        "ReadFile",
    ) || text_eq(name, "ReadMediaFile") || text_eq(name, "Edit") || text_eq(name, "Write")
        || text_eq(name, "Read") {
        ToolKind::File
    } else {
        ToolKind::Other
    }
}

/// What a tool does to its file.
pub fn file_op_for(tool: &str) -> (r: Option<FileOp>)
    ensures
        r == file_op(tool@),
{
    if text_eq(tool, "ReadFile") || text_eq(tool, "ReadMediaFile") || text_eq(tool, "Read") {
        Some(FileOp::Read)
    } else if text_eq(tool, "WriteFile") || text_eq(tool, "Write") {
        Some(FileOp::Write)
    } else if text_eq(tool, "StrReplaceFile") || text_eq(tool, "Edit") {
        Some(FileOp::Edit)
    } else {
        None
    }
}

/// The tokens that a usage record names.
pub open spec fn wire_usage(u: JsonTree) -> Usage {
    Usage {
        input: count_of(u, "inputOther"@),
        output: count_of(u, "output"@),
        cache_read: count_of(u, "inputCacheRead"@),
        cache_create: count_of(u, "inputCacheCreation"@),
    }
}

/// The tokens of a turn's input side, which fill the context window.
pub open spec fn wire_context(u: Usage) -> int {
    u.input + u.cache_read + u.cache_create
}

/// A usage record.
pub open spec fn usage_step(event: JsonTree, d: DeltaView) -> DeltaView {
    let seen = DeltaView { saw_usage: true, ..d };
    let counted = match event.get("usage"@) {
        Some(u) => with_usage(seen, wire_usage(u), wire_context(wire_usage(u))),
        None => seen,
    };
    with_model(counted, event.get_str("model"@))
}

/// A message of the conversation.
pub open spec fn message_step<P: HostPolicy>(
    policy: P,
    event: JsonTree,
    d: DeltaView,
) -> DeltaView {
    match event.get("message"@) {
        None => d,
        Some(msg) => {
            let role = or_empty(msg.get_str("role"@));
            let text = shown_text(policy, msg.get("content"@), BlockKinds::TextAndThink);
            if role == "assistant"@ {
                with_assistant_text(with_turn(d), policy, text)
            } else if role == "user"@ {
                with_user_text(d, policy, text)
            } else {
                d
            }
        },
    }
}

/// A call of a tool.
pub open spec fn tool_step<P: HostPolicy>(policy: P, call: JsonTree, d: DeltaView) -> DeltaView {
    let name = called_tool(call);
    let args = or_null(call.get("args"@));
    with_tool_call(
        d,
        name,
        shown_arg(policy, tool_kind(name), args),
        file_op(name),
        file_arg(tool_kind(name), args),
    )
}

/// A part of what the assistant writes, kept where nothing of it is known yet.
pub open spec fn part_step<P: HostPolicy>(policy: P, event: JsonTree, d: DeltaView) -> DeltaView {
    match event.get("part"@) {
        None => d,
        Some(part) => match (part.get_str("type"@), part.get_str("text"@)) {
            (Some(kind), Some(text)) => if kind == "text"@ && trim(policy.sanitized(text)).len()
                > 0 {
                DeltaView { first_assistant_text: truncated(policy.sanitized(text), 200), ..d }
            } else {
                d
            },
            _ => d,
        },
    }
}

/// An event of the agent's loop.
pub open spec fn loop_step<P: HostPolicy>(policy: P, event: JsonTree, d: DeltaView) -> DeltaView {
    match event.get("event"@) {
        None => d,
        Some(inner) => if event_type(inner) == "tool.call"@ {
            tool_step(policy, inner, d)
        } else if event_type(inner) == "content.part"@ && d.first_assistant_text.len() == 0 {
            part_step(policy, inner, d)
        } else {
            d
        },
    }
}

/// A prompt, kept where none is known yet.
pub open spec fn prompt_step(event: JsonTree, d: DeltaView) -> DeltaView {
    match event.get("input"@) {
        Some(JsonTree::Array(blocks)) => {
            let text = joined_blocks(blocks, BlockKinds::Text);
            if trim(text).len() > 0 {
                DeltaView { initial_prompt: truncated(flattened(text, true), 50), ..d }
            } else {
                d
            }
        },
        _ => d,
    }
}

/// What one event adds.
pub open spec fn wire_step<P: HostPolicy>(policy: P, event: JsonTree, d: DeltaView) -> DeltaView {
    let seen = seen_at(d, event_time(event.get("time"@)));
    let kind = event_type(event);
    if kind == "usage.record"@ {
        usage_step(event, seen)
    } else if kind == "context.append_message"@ {
        message_step(policy, event, seen)
    } else if kind == "context.append_loop_event"@ {
        loop_step(policy, event, seen)
    } else if kind == "turn.prompt"@ && d.initial_prompt.len() == 0 {
        prompt_step(event, seen)
    } else {
        seen
    }
}

/// Whether the counts that an event enters stay within their width.
pub open spec fn wire_fits(event: JsonTree, d: DeltaView) -> bool {
    let kind = event_type(event);
    if kind == "usage.record"@ {
        match event.get("usage"@) {
            Some(u) => usage_fits(d, wire_usage(u), wire_context(wire_usage(u))),
            None => true,
        }
    } else if kind == "context.append_message"@ {
        match event.get("message"@) {
            Some(msg) => or_empty(msg.get_str("role"@)) == "assistant"@ ==> d.turn_count
                < u32::MAX,
            None => true,
        }
    } else {
        true
    }
}

/// The tokens that a usage record names.
fn usage_at(u: &Json) -> (r: Usage)
    ensures
        r == wire_usage(u@),
{
    Usage {
        input: count_at(u, "inputOther"),
        output: count_at(u, "output"),
        cache_read: count_at(u, "inputCacheRead"),
        cache_create: count_at(u, "inputCacheCreation"),
    }
}

/// Whether [`handle_wire_event`] keeps every count within its width.
pub fn wire_event_fits(val: &Json, delta: &SessionDelta) -> (r: bool)
    ensures
        r == wire_fits(val@, delta@),
{
    let kind = val.get_str("type");
    if str_is(kind, "usage.record") {
        match val.get("usage") {
            Some(u) => {
                let usage = usage_at(u);
                delta.usage_fits(
                    usage,
                    usage.input as u128 + usage.cache_read as u128 + usage.cache_create as u128,
                )
            },
            None => true,
        }
    } else if str_is(kind, "context.append_message") {
        match val.get("message") {
            Some(msg) => !str_is(msg.get_str("role"), "assistant") || delta.turn_count
                < 0xffff_ffff,
            None => true,
        }
    } else {
        true
    }
}

/// Adds a message of the conversation.
fn handle_message<P: HostPolicy>(policy: &P, val: &Json, delta: &mut SessionDelta)
    requires
        event_type(val@) == "context.append_message"@,
        event_type(val@) != "usage.record"@,
        wire_fits(val@, old(delta)@),
    ensures
        final(delta)@ == message_step(*policy, val@, old(delta)@),
{
    let msg = match val.get("message") {
        Some(m) => m,
        None => {
            return ;
        },
    };
    let role = msg.get_str("role");
    let text = extract_text_from_content(policy, msg.get("content"), BlockKinds::TextAndThink);
    if str_is(role, "assistant") {
        delta.turn_count = delta.turn_count + 1;
        delta.add_assistant_text(policy, text);
    } else if str_is(role, "user") {
        delta.add_user_text(policy, text);
    }
}

/// Adds an event of the agent's loop.
fn handle_loop_event<P: HostPolicy>(policy: &P, val: &Json, delta: &mut SessionDelta)
    ensures
        final(delta)@ == loop_step(*policy, val@, old(delta)@),
{
    let ev = match val.get("event") {
        Some(e) => e,
        None => {
            return ;
        },
    };
    let kind = ev.get_str("type");
    if str_is(kind, "tool.call") {
        let name = match ev.get_str("name") {
            Some(n) => n,
            None => "?",
        };
        let none = Json::Null;
        let args = match ev.get("args") {
            Some(a) => a,
            None => &none,
        };
        let (arg, path) = parse_tool_args(policy, tool_kind_of(name), args);
        delta.add_tool_call(name, arg.as_str(), file_op_for(name), path);
    } else if str_is(kind, "content.part") && delta.first_assistant_text.as_str().is_empty() {
        if let Some(part) = ev.get("part") {
            if let Some(kind) = part.get_str("type") {
                if let Some(t) = part.get_str("text") {
                    if text_eq(kind, "text") {
                        let cleaned = policy.sanitize_terminal_text(t);
                        if !is_blank(cleaned.as_str()) {
                            delta.first_assistant_text = truncate(cleaned.as_str(), 200);
                        }
                    }
                }
            }
        }
    }
}

/// Adds one event of a log.
pub fn handle_wire_event<P: HostPolicy>(policy: &P, val: &Json, delta: &mut SessionDelta)
    requires
        wire_fits(val@, old(delta)@),
    ensures
        final(delta)@ == wire_step(*policy, val@, old(delta)@),
{
    delta.see_at(time_to_systemtime(val.get("time")));
    let kind = val.get_str("type");
    if str_is(kind, "usage.record") {
        delta.saw_usage = true;
        if let Some(u) = val.get("usage") {
            let usage = usage_at(u);
            let context = usage.input + usage.cache_read + usage.cache_create;
            delta.add_usage(usage, context);
        }
        delta.set_model(val.get_str("model"));
    } else if str_is(kind, "context.append_message") {
        handle_message(policy, val, delta);
    } else if str_is(kind, "context.append_loop_event") {
        handle_loop_event(policy, val, delta);
    } else if str_is(kind, "turn.prompt") && delta.initial_prompt.as_str().is_empty() {
        if let Some(Json::Array(blocks)) = val.get("input") {
            let text = join_blocks(blocks, BlockKinds::Text);
            assert(val@.get("input"@)->0->Array_0 =~= trees(blocks@));
            if !is_blank(text.as_str()) {
                let cleaned = clean_prompt(text.as_str());
                delta.initial_prompt = truncate(cleaned.as_str(), 50);
            }
        }
    }
}

proof fn lemma_step_continues<P: HostPolicy>(
    policy: P,
    event: JsonTree,
    c: CacheView,
    d: DeltaView,
    e: CacheView,
    f: DeltaView,
)
    requires
        alike(policy, c, d, e, f),
        wire_fits(event, d),
        wire_fits(event, f),
    ensures
        alike(policy, c, wire_step(policy, event, d), e, wire_step(policy, event, f)),
{
    let time = event_time(event.get("time"@));
    let d1 = seen_at(d, time);
    let f1 = seen_at(f, time);
    lemma_time_continues(policy, c, d, e, f, time);
    let kind = event_type(event);
    if kind == "usage.record"@ {
        let d2 = DeltaView { saw_usage: true, ..d1 };
        let f2 = DeltaView { saw_usage: true, ..f1 };
        lemma_usage_is_seen(policy, c, d1, e, f1);
        match event.get("usage"@) {
            Some(u) => {
                let usage = wire_usage(u);
                let context = wire_context(usage);
                lemma_usage_continues(policy, c, d2, e, f2, usage, context);
                lemma_model_continues(
                    policy,
                    c,
                    with_usage(d2, usage, context),
                    e,
                    with_usage(f2, usage, context),
                    event.get_str("model"@),
                );
            },
            None => {
                lemma_model_continues(policy, c, d2, e, f2, event.get_str("model"@));
            },
        }
    } else if kind == "context.append_message"@ {
        if let Some(msg) = event.get("message"@) {
            let role = or_empty(msg.get_str("role"@));
            let text = shown_text(policy, msg.get("content"@), BlockKinds::TextAndThink);
            if role == "assistant"@ {
                lemma_turn_continues(policy, c, d1, e, f1);
                lemma_assistant_continues(policy, c, with_turn(d1), e, with_turn(f1), text);
            } else if role == "user"@ {
                lemma_user_continues(policy, c, d1, e, f1, text);
            }
        }
    } else if kind == "context.append_loop_event"@ {
        if let Some(inner) = event.get("event"@) {
            lemma_loop_continues(policy, inner, c, d1, e, f1);
        }
    } else if kind == "turn.prompt"@ {
        lemma_prompt_continues(policy, event, c, d1, e, f1);
    }
}

proof fn lemma_loop_continues<P: HostPolicy>(
    policy: P,
    inner: JsonTree,
    c: CacheView,
    d: DeltaView,
    e: CacheView,
    f: DeltaView,
)
    requires
        alike(policy, c, d, e, f),
    ensures
        event_type(inner) == "tool.call"@ ==> alike(
            policy,
            c,
            tool_step(policy, inner, d),
            e,
            tool_step(policy, inner, f),
        ),
        alike(
            policy,
            c,
            if d.first_assistant_text.len() == 0 {
                part_step(policy, inner, d)
            } else {
                d
            },
            e,
            if f.first_assistant_text.len() == 0 {
                part_step(policy, inner, f)
            } else {
                f
            },
        ),
{
    if event_type(inner) == "tool.call"@ {
        let name = called_tool(inner);
        let args = or_null(inner.get("args"@));
        lemma_tool_continues(
            policy,
            c,
            d,
            e,
            f,
            name,
            shown_arg(policy, tool_kind(name), args),
            file_op(name),
            file_arg(tool_kind(name), args),
        );
    }
    let d1 = if d.first_assistant_text.len() == 0 {
        part_step(policy, inner, d)
    } else {
        d
    };
    let f1 = if f.first_assistant_text.len() == 0 {
        part_step(policy, inner, f)
    } else {
        f
    };
    reveal(alike);
    assert(outlook(policy, c, d) == outlook(policy, e, f));
    assert(outlook(policy, c, d1) =~= outlook(policy, e, f1));
}

proof fn lemma_prompt_continues<P: HostPolicy>(
    policy: P,
    event: JsonTree,
    c: CacheView,
    d: DeltaView,
    e: CacheView,
    f: DeltaView,
)
    requires
        alike(policy, c, d, e, f),
    ensures
        alike(
            policy,
            c,
            if d.initial_prompt.len() == 0 {
                prompt_step(event, d)
            } else {
                d
            },
            e,
            if f.initial_prompt.len() == 0 {
                prompt_step(event, f)
            } else {
                f
            },
        ),
{
    let d1 = if d.initial_prompt.len() == 0 {
        prompt_step(event, d)
    } else {
        d
    };
    let f1 = if f.initial_prompt.len() == 0 {
        prompt_step(event, f)
    } else {
        f
    };
    reveal(alike);
    assert(outlook(policy, c, d) == outlook(policy, e, f));
    assert(outlook(policy, c, d1) =~= outlook(policy, e, f1));
}

proof fn lemma_step_lists<P: HostPolicy>(
    policy: P,
    event: JsonTree,
    c: CacheView,
    d: DeltaView,
    e: CacheView,
    f: DeltaView,
)
    requires
        same_lists(c, d, e, f),
        lists_fit(c, wire_step(policy, event, d)),
    ensures
        same_lists(c, wire_step(policy, event, d), e, wire_step(policy, event, f)),
{
    let time = event_time(event.get("time"@));
    let d1 = seen_at(d, time);
    let f1 = seen_at(f, time);
    let kind = event_type(event);
    if kind == "usage.record"@ {
        if let Some(u) = event.get("usage"@) {
            let usage = wire_usage(u);
            lemma_usage_lists(
                c,
                DeltaView { saw_usage: true, ..d1 },
                e,
                DeltaView { saw_usage: true, ..f1 },
                usage,
                wire_context(usage),
            );
        }
    } else if kind != "context.append_message"@ && kind == "context.append_loop_event"@ {
        if let Some(inner) = event.get("event"@) {
            if event_type(inner) == "tool.call"@ {
                let name = called_tool(inner);
                let args = or_null(inner.get("args"@));
                lemma_tool_lists(
                    c,
                    d1,
                    e,
                    f1,
                    name,
                    shown_arg(policy, tool_kind(name), args),
                    file_op(name),
                    file_arg(tool_kind(name), args),
                );
            }
        }
    }
}

/// Whether an event, where it is a usage record, names its tokens.
pub open spec fn names_usage(event: JsonTree) -> bool {
    event_type(event) == "usage.record"@ ==> event.get("usage"@) is Some
}

/// The format of these logs.
pub struct Wire {

}

impl<P: HostPolicy> LogFormat<P> for Wire {
    open spec fn step(policy: P, event: JsonTree, d: DeltaView) -> DeltaView {
        wire_step(policy, event, d)
    }

    open spec fn fits(event: JsonTree, d: DeltaView) -> bool {
        wire_fits(event, d)
    }

    fn event_fits(val: &Json, delta: &SessionDelta) -> (r: bool) {
        wire_event_fits(val, delta)
    }

    fn handle_event(policy: &P, val: &Json, delta: &mut SessionDelta) {
        handle_wire_event(policy, val, delta)
    }

    proof fn step_continues(
        policy: P,
        event: JsonTree,
        c: CacheView,
        d: DeltaView,
        e: CacheView,
        f: DeltaView,
    ) {
        lemma_step_continues(policy, event, c, d, e, f);
    }

    proof fn step_grows(policy: P, event: JsonTree, d: DeltaView) {
    }

    proof fn step_lists(
        policy: P,
        event: JsonTree,
        c: CacheView,
        d: DeltaView,
        e: CacheView,
        f: DeltaView,
    ) {
        lemma_step_lists(policy, event, c, d, e, f);
    }

    open spec fn names_tokens(event: JsonTree) -> bool {
        names_usage(event)
    }

    proof fn step_context(
        policy: P,
        event: JsonTree,
        c: CacheView,
        d: DeltaView,
        e: CacheView,
        f: DeltaView,
    ) {
    }
}

/// Reads the new part of a log: the bytes of a file of `file_len` bytes from
/// `from_offset` on. There is no answer where a count would outgrow its width.
pub fn parse_wire<P: HostPolicy>(
    policy: &P,
    file_len: u64,
    tail: &[u8],
    from_offset: u64,
) -> (r: Option<SessionDelta>)
    requires
        from_offset + tail@.len() <= u64::MAX,
    ensures
        match r {
            Some(d) => countable::<P, Wire>(*policy, file_len, tail@, from_offset) && d@
                == log_delta::<P, Wire>(*policy, file_len, tail@, from_offset),
            None => !countable::<P, Wire>(*policy, file_len, tail@, from_offset),
        },
{
    parse_log::<P, Wire>(policy, file_len, tail, from_offset)
}

/// A log that is read while its last line may still be unfinished, and again
/// once it has grown, tells the same of the session as one look at the grown
/// log: the new bytes are counted once, and none is missed. The same tokens
/// fill the context window, too, where every usage record of the second look
/// names its tokens.
pub proof fn law_wire_is_read_in_parts<P: HostPolicy>(
    policy: P,
    c: CacheView,
    a: Seq<u8>,
    b: Seq<u8>,
)
    requires
        is_bounded(policy, c),
        has_short_lines(a),
        c.offset + a.len() + b.len() <= u64::MAX,
        parts_fit::<P, Wire>(policy, c, a, b),
    ensures
        parts_agree::<P, Wire>(policy, c, a, b),
        all_name_tokens::<P, Wire>(log_documents(left_over(a, b))) ==> looked_twice::<P, Wire>(
            policy,
            c,
            a,
            b,
        ).context_tokens == looked_once::<P, Wire>(policy, c, a + b).context_tokens,
{
    law_log_is_read_in_parts::<P, Wire>(policy, c, a, b);
    if all_name_tokens::<P, Wire>(log_documents(left_over(a, b))) {
        law_context_is_read_in_parts::<P, Wire>(policy, c, a, b);
    }
}

} // verus!
