//! What a stretch of a session's log adds, and what is known of the session.
use crate::bounded::keep_last;
use crate::bounded::last_of;
use crate::json::opt_chars;
use crate::model::chats;
use crate::model::files;
use crate::model::opt_string;
use crate::model::tools;
use crate::model::ChatMessage;
use crate::model::ChatRole;
use crate::model::ChatView;
use crate::model::FileAccess;
use crate::model::FileOp;
use crate::model::FileView;
use crate::model::ToolCall;
use crate::model::ToolView;
use crate::policy::HostPolicy;
use crate::text::truncate;
use crate::text::truncated;
use vstd::prelude::*;
use vstd::string::StringExecFns;

verus! {

/// How many tool calls of a session are kept.
pub const MAX_TOOL_CALLS: usize = 500;

/// How many entries a history of counts keeps.
pub const MAX_HISTORY: usize = 10_000;

/// The tokens of one turn.
#[derive(Clone, Copy, PartialEq, Eq, Structural, Debug)]
pub struct Usage {
    pub input: u64,
    pub output: u64,
    pub cache_read: u64,
    pub cache_create: u64,
}

/// What a stretch of a log adds to a session.
pub struct SessionDelta {
    /// The place in the log up to which it was read.
    pub new_offset: u64,
    pub saw_usage: bool,
    pub context_tokens: u64,
    pub model: Option<String>,
    pub effort: Option<String>,
    /// The time of the newest entry, in milliseconds from 1970.
    pub last_activity: Option<u64>,
    pub input: u64,
    pub output: u64,
    pub cache_read: u64,
    pub cache_create: u64,
    pub token_history: Vec<u64>,
    pub turn_count: u32,
    pub compaction_count: u32,
    pub current_task: String,
    pub tool_calls: Vec<ToolCall>,
    pub chat_messages: Vec<ChatMessage>,
    pub file_accesses: Vec<FileAccess>,
    pub initial_prompt: String,
    pub first_assistant_text: String,
}

#[verifier::ext_equal]
pub struct DeltaView {
    pub new_offset: u64,
    pub saw_usage: bool,
    pub context_tokens: u64,
    pub model: Option<Seq<char>>,
    pub effort: Option<Seq<char>>,
    pub last_activity: Option<u64>,
    pub input: u64,
    pub output: u64,
    pub cache_read: u64,
    pub cache_create: u64,
    pub token_history: Seq<u64>,
    pub turn_count: u32,
    pub compaction_count: u32,
    pub current_task: Seq<char>,
    pub tool_calls: Seq<ToolView>,
    pub chat_messages: Seq<ChatView>,
    pub file_accesses: Seq<FileView>,
    pub initial_prompt: Seq<char>,
    pub first_assistant_text: Seq<char>,
}

impl View for SessionDelta {
    type V = DeltaView;

    open spec fn view(&self) -> DeltaView {
        DeltaView {
            new_offset: self.new_offset,
            saw_usage: self.saw_usage,
            context_tokens: self.context_tokens,
            model: opt_string(self.model),
            effort: opt_string(self.effort),
            last_activity: self.last_activity,
            input: self.input,
            output: self.output,
            cache_read: self.cache_read,
            cache_create: self.cache_create,
            token_history: self.token_history@,
            turn_count: self.turn_count,
            compaction_count: self.compaction_count,
            current_task: self.current_task@,
            tool_calls: tools(self.tool_calls@),
            chat_messages: chats(self.chat_messages@),
            file_accesses: files(self.file_accesses@),
            initial_prompt: self.initial_prompt@,
            first_assistant_text: self.first_assistant_text@,
        }
    }
}

/// A stretch that adds nothing, read up to `offset`.
pub open spec fn no_delta(offset: u64) -> DeltaView {
    DeltaView {
        new_offset: offset,
        saw_usage: false,
        context_tokens: 0,
        model: None,
        effort: None,
        last_activity: None,
        input: 0,
        output: 0,
        cache_read: 0,
        cache_create: 0,
        token_history: Seq::empty(),
        turn_count: 0,
        compaction_count: 0,
        current_task: Seq::empty(),
        tool_calls: Seq::empty(),
        chat_messages: Seq::empty(),
        file_accesses: Seq::empty(),
        initial_prompt: Seq::empty(),
        first_assistant_text: Seq::empty(),
    }
}

/// The later of two times, where there is one.
pub open spec fn later(a: Option<u64>, b: Option<u64>) -> Option<u64> {
    match (a, b) {
        (Some(x), Some(y)) => Some(
            if x >= y {
                x
            } else {
                y
            },
        ),
        (Some(x), None) => Some(x),
        (None, y) => y,
    }
}

/// The later of two times, where there is one.
pub fn later_of(a: Option<u64>, b: Option<u64>) -> (r: Option<u64>)
    ensures
        r == later(a, b),
{
    match a {
        Some(x) => match b {
            Some(y) => if x >= y {
                Some(x)
            } else {
                Some(y)
            },
            None => Some(x),
        },
        None => b,
    }
}

/// Something happened at the given time.
pub open spec fn seen_at(d: DeltaView, time: Option<u64>) -> DeltaView {
    DeltaView { last_activity: later(d.last_activity, time), ..d }
}

/// Whether the sums that a turn's tokens enter stay within 64 bits.
pub open spec fn usage_fits(d: DeltaView, u: Usage, context: int) -> bool {
    &&& d.input + u.input <= u64::MAX
    &&& d.output + u.output <= u64::MAX
    &&& d.cache_read + u.cache_read <= u64::MAX
    &&& d.cache_create + u.cache_create <= u64::MAX
    &&& context <= u64::MAX
    &&& d.token_history.len() < MAX_HISTORY ==> u.input + u.output + u.cache_read + u.cache_create
        <= u64::MAX
}

/// A turn used tokens, `context` of them in the context window.
pub open spec fn with_usage(d: DeltaView, u: Usage, context: int) -> DeltaView {
    DeltaView {
        input: (d.input + u.input) as u64,
        output: (d.output + u.output) as u64,
        cache_read: (d.cache_read + u.cache_read) as u64,
        cache_create: (d.cache_create + u.cache_create) as u64,
        context_tokens: context as u64,
        token_history: if d.token_history.len() < MAX_HISTORY {
            d.token_history.push((u.input + u.output + u.cache_read + u.cache_create) as u64)
        } else {
            d.token_history
        },
        ..d
    }
}

/// A model was named; a model without a name is none.
pub open spec fn with_model(d: DeltaView, model: Option<Seq<char>>) -> DeltaView {
    match model {
        Some(m) => if m.len() > 0 {
            DeltaView { model: Some(m), ..d }
        } else {
            d
        },
        None => d,
    }
}

/// The messages with one more, the newest of them; an empty one is none.
pub open spec fn chat_with(
    messages: Seq<ChatView>,
    role: ChatRole,
    text: Seq<char>,
    limit: nat,
) -> Seq<ChatView> {
    if text.len() == 0 {
        messages
    } else {
        last_of(messages.push(ChatView { role, text }), limit)
    }
}

/// The user wrote `text`.
pub open spec fn with_user_text<P: HostPolicy>(
    d: DeltaView,
    policy: P,
    text: Seq<char>,
) -> DeltaView {
    DeltaView {
        initial_prompt: if d.initial_prompt.len() == 0 && text.len() > 0 {
            truncated(crate::text::flattened(text, true), 50)
        } else {
            d.initial_prompt
        },
        chat_messages: chat_with(d.chat_messages, ChatRole::User, text, policy.chat_limit()),
        ..d
    }
}

/// The reasoning effort was set.
pub open spec fn with_effort(d: DeltaView, level: Seq<char>) -> DeltaView {
    DeltaView { effort: Some(level), ..d }
}

/// The context was compacted.
pub open spec fn with_compaction(d: DeltaView) -> DeltaView {
    DeltaView { compaction_count: (d.compaction_count + 1) as u32, ..d }
}

/// The assistant took a turn.
pub open spec fn with_turn(d: DeltaView) -> DeltaView {
    DeltaView { turn_count: (d.turn_count + 1) as u32, ..d }
}

/// The assistant wrote `text`.
pub open spec fn with_assistant_text<P: HostPolicy>(
    d: DeltaView,
    policy: P,
    text: Seq<char>,
) -> DeltaView {
    DeltaView {
        first_assistant_text: if d.first_assistant_text.len() == 0 && text.len() > 0 {
            truncated(text, 200)
        } else {
            d.first_assistant_text
        },
        chat_messages: chat_with(d.chat_messages, ChatRole::Assistant, text, policy.chat_limit()),
        ..d
    }
}

/// A tool was called, and touched a file where `op` and `path` say so.
pub open spec fn with_tool_call(
    d: DeltaView,
    name: Seq<char>,
    arg: Seq<char>,
    op: Option<FileOp>,
    path: Option<Seq<char>>,
) -> DeltaView {
    let shown = truncated(arg, 40);
    DeltaView {
        current_task: name + seq![' '] + shown,
        tool_calls: if d.tool_calls.len() < MAX_TOOL_CALLS {
            d.tool_calls.push(ToolView { name, arg: shown, duration_ms: 0 })
        } else {
            d.tool_calls
        },
        file_accesses: match (op, path) {
            (Some(operation), Some(p)) => d.file_accesses.push(
                FileView { path: p, operation, turn_index: d.turn_count },
            ),
            _ => d.file_accesses,
        },
        ..d
    }
}

/// Adds a message, and drops the oldest beyond `limit`.
pub fn push_chat(messages: &mut Vec<ChatMessage>, role: ChatRole, text: String, limit: usize)
    ensures
        chats(final(messages)@) == chat_with(chats(old(messages)@), role, text@, limit as nat),
{
    if text.as_str().is_empty() {
        return ;
    }
    let ghost before = messages@;
    let message = ChatMessage { role, text };
    messages.push(message);
    assert(chats(messages@) =~= chats(before).push(message@));
    let ghost longer = messages@;
    keep_last(messages, limit);
    assert(chats(messages@) =~= last_of(chats(longer), limit as nat));
}

impl SessionDelta {
    /// A stretch that adds nothing, read up to `offset`.
    pub fn starting_at(offset: u64) -> (r: SessionDelta)
        ensures
            r@ == no_delta(offset),
    {
        let r = SessionDelta {
            new_offset: offset,
            saw_usage: false,
            context_tokens: 0,
            model: None,
            effort: None,
            last_activity: None,
            input: 0,
            output: 0,
            cache_read: 0,
            cache_create: 0,
            token_history: Vec::new(),
            turn_count: 0,
            compaction_count: 0,
            current_task: String::new(),
            tool_calls: Vec::new(),
            chat_messages: Vec::new(),
            file_accesses: Vec::new(),
            initial_prompt: String::new(),
            first_assistant_text: String::new(),
        };
        assert(r@ =~= no_delta(offset));
        r
    }

    /// Notes the time of an entry.
    pub fn see_at(&mut self, time: Option<u64>)
        ensures
            final(self)@ == seen_at(old(self)@, time),
    {
        self.last_activity = later_of(self.last_activity, time);
    }

    /// Whether [`SessionDelta::add_usage`] keeps every sum within 64 bits;
    /// `context` is the exact sum.
    pub fn usage_fits(&self, u: Usage, context: u128) -> (r: bool)
        ensures
            r == usage_fits(self@, u, context as int),
    {
        u.input <= 0xffff_ffff_ffff_ffff - self.input && u.output <= 0xffff_ffff_ffff_ffff
            - self.output && u.cache_read <= 0xffff_ffff_ffff_ffff - self.cache_read
            && u.cache_create <= 0xffff_ffff_ffff_ffff - self.cache_create && context
            <= 0xffff_ffff_ffff_ffff && (self.token_history.len() >= MAX_HISTORY || u.input as u128
            + u.output as u128 + u.cache_read as u128 + u.cache_create as u128
            <= 0xffff_ffff_ffff_ffff)
    }

    /// Adds the tokens of a turn.
    pub fn add_usage(&mut self, u: Usage, context: u64)
        requires
            usage_fits(old(self)@, u, context as int),
        ensures
            final(self)@ == with_usage(old(self)@, u, context as int),
    {
        self.input = self.input + u.input;
        self.output = self.output + u.output;
        self.cache_read = self.cache_read + u.cache_read;
        self.cache_create = self.cache_create + u.cache_create;
        self.context_tokens = context;
        if self.token_history.len() < MAX_HISTORY {
            self.token_history.push(u.input + u.output + u.cache_read + u.cache_create);
        }
    }

    /// Notes the model, where it has a name.
    pub fn set_model(&mut self, model: Option<&str>)
        ensures
            final(self)@ == with_model(old(self)@, opt_chars(model)),
    {
        match model {
            Some(m) => {
                if !m.is_empty() {
                    self.model = Some(m.to_owned());
                }
            },
            None => {},
        }
    }

    /// Adds what the user wrote.
    pub fn add_user_text<P: HostPolicy>(&mut self, policy: &P, text: String)
        ensures
            final(self)@ == with_user_text(old(self)@, *policy, text@),
    {
        if self.initial_prompt.as_str().is_empty() && !text.as_str().is_empty() {
            let cleaned = crate::text::clean_prompt(text.as_str());
            self.initial_prompt = truncate(cleaned.as_str(), 50);
        }
        push_chat(&mut self.chat_messages, ChatRole::User, text, policy.max_chat_messages());
    }

    /// Adds what the assistant wrote.
    pub fn add_assistant_text<P: HostPolicy>(&mut self, policy: &P, text: String)
        ensures
            final(self)@ == with_assistant_text(old(self)@, *policy, text@),
    {
        if self.first_assistant_text.as_str().is_empty() && !text.as_str().is_empty() {
            self.first_assistant_text = truncate(text.as_str(), 200);
        }
        push_chat(&mut self.chat_messages, ChatRole::Assistant, text, policy.max_chat_messages());
    }

    /// Adds a call of a tool.
    pub fn add_tool_call(
        &mut self,
        name: &str,
        arg: &str,
        op: Option<FileOp>,
        path: Option<String>,
    )
        ensures
            final(self)@ == with_tool_call(old(self)@, name@, arg@, op, opt_string(path)),
    {
        let ghost start = self@;
        let shown = truncate(arg, 40);
        let mut task = name.to_owned();
        task.push(' ');
        task.append(shown.as_str());
        assert(task@ =~= name@ + seq![' '] + shown@);
        self.current_task = task;
        if self.tool_calls.len() < MAX_TOOL_CALLS {
            let call = ToolCall { name: name.to_owned(), arg: shown, duration_ms: 0 };
            self.tool_calls.push(call);
            assert(tools(self.tool_calls@) =~= start.tool_calls.push(call@));
        }
        match (op, path) {
            (Some(operation), Some(p)) => {
                let access = FileAccess { path: p, operation, turn_index: self.turn_count };
                self.file_accesses.push(access);
                assert(files(self.file_accesses@) =~= start.file_accesses.push(access@));
            },
            _ => {},
        }
    }
}

} // verus!
