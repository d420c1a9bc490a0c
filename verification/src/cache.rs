//! What is known of a session, kept from one look at its log to the next.
use crate::activity::chat_with;
use crate::activity::later;
use crate::activity::later_of;
use crate::activity::seen_at;
use crate::activity::usage_fits;
use crate::activity::with_assistant_text;
use crate::activity::with_compaction;
use crate::activity::with_effort;
use crate::activity::with_model;
use crate::activity::with_tool_call;
use crate::activity::with_turn;
use crate::activity::with_usage;
use crate::activity::with_user_text;
use crate::activity::no_delta;
use crate::activity::DeltaView;
use crate::activity::SessionDelta;
use crate::activity::Usage;
use crate::activity::MAX_HISTORY;
use crate::activity::MAX_TOOL_CALLS;
use crate::bounded::extend_keeping;
use crate::bounded::first_of;
use crate::bounded::keep_last;
use crate::bounded::last_of;
use crate::bounded::law_bounded_extension;
use crate::bounded::lemma_bounded_part;
use crate::model::chats;
use crate::model::files;
use crate::model::tools;
use crate::model::ChatMessage;
use crate::model::ChatRole;
use crate::model::ChatView;
use crate::model::FileAccess;
use crate::model::FileOp;
use crate::model::FileView;
use crate::model::ToolCall;
use crate::model::ToolView;
use crate::policy::HostPolicy;
use crate::text::truncated;
use vstd::prelude::*;

verus! {

/// What is known of a session.
pub struct SessionCache {
    /// The place in the log up to which it was read.
    pub offset: u64,
    /// Which file the log is.
    pub identity: (u64, u64),
    pub total_input: u64,
    pub total_output: u64,
    pub total_cache_read: u64,
    pub total_cache_create: u64,
    pub context_tokens: u64,
    pub model: String,
    pub effort: String,
    /// The time of the newest entry, in milliseconds from 1970.
    pub last_activity: Option<u64>,
    pub token_history: Vec<u64>,
    pub context_history: Vec<u64>,
    pub turn_count: u32,
    pub compaction_count: u32,
    pub current_task: String,
    pub tool_calls: Vec<ToolCall>,
    pub chat_messages: Vec<ChatMessage>,
    pub file_accesses: Vec<FileAccess>,
    pub initial_prompt: String,
    pub first_assistant_text: String,
}

#[verifier::ext_equal]
pub struct CacheView {
    pub offset: u64,
    pub identity: (u64, u64),
    pub total_input: u64,
    pub total_output: u64,
    pub total_cache_read: u64,
    pub total_cache_create: u64,
    pub context_tokens: u64,
    pub model: Seq<char>,
    pub effort: Seq<char>,
    pub last_activity: Option<u64>,
    pub token_history: Seq<u64>,
    pub context_history: Seq<u64>,
    pub turn_count: u32,
    pub compaction_count: u32,
    pub current_task: Seq<char>,
    pub tool_calls: Seq<ToolView>,
    pub chat_messages: Seq<ChatView>,
    pub file_accesses: Seq<FileView>,
    pub initial_prompt: Seq<char>,
    pub first_assistant_text: Seq<char>,
}

impl View for SessionCache {
    type V = CacheView;

    open spec fn view(&self) -> CacheView {
        CacheView {
            offset: self.offset,
            identity: self.identity,
            total_input: self.total_input,
            total_output: self.total_output,
            total_cache_read: self.total_cache_read,
            total_cache_create: self.total_cache_create,
            context_tokens: self.context_tokens,
            model: self.model@,
            effort: self.effort@,
            last_activity: self.last_activity,
            token_history: self.token_history@,
            context_history: self.context_history@,
            turn_count: self.turn_count,
            compaction_count: self.compaction_count,
            current_task: self.current_task@,
            tool_calls: tools(self.tool_calls@),
            chat_messages: chats(self.chat_messages@),
            file_accesses: files(self.file_accesses@),
            initial_prompt: self.initial_prompt@,
            first_assistant_text: self.first_assistant_text@,
        }
    }
}

/// Nothing is known.
pub open spec fn no_cache() -> CacheView {
    CacheView {
        offset: 0,
        identity: (0, 0),
        total_input: 0,
        total_output: 0,
        total_cache_read: 0,
        total_cache_create: 0,
        context_tokens: 0,
        model: Seq::empty(),
        effort: Seq::empty(),
        last_activity: None,
        token_history: Seq::empty(),
        context_history: Seq::empty(),
        turn_count: 0,
        compaction_count: 0,
        current_task: Seq::empty(),
        tool_calls: Seq::empty(),
        chat_messages: Seq::empty(),
        file_accesses: Seq::empty(),
        initial_prompt: Seq::empty(),
        first_assistant_text: Seq::empty(),
    }
}

/// What is known of the given file of `len` bytes: nothing, where another was
/// read before, or where more of it was read than it holds now.
pub open spec fn resumed(c: CacheView, identity: (u64, u64), len: u64) -> CacheView {
    if c.identity == identity && c.offset <= len {
        c
    } else {
        CacheView { identity, ..no_cache() }
    }
}

/// Whether a delta that was read from `from` on tells something new.
pub open spec fn progressed(from: u64, d: DeltaView) -> bool {
    d.new_offset > from || from == 0
}

/// The tokens in the context window once the delta is added.
pub open spec fn context_after(c: CacheView, d: DeltaView) -> u64 {
    if d.saw_usage {
        d.context_tokens
    } else {
        c.context_tokens
    }
}

/// What is known once the delta is added.
pub open spec fn merged<P: HostPolicy>(policy: P, c: CacheView, d: DeltaView) -> CacheView {
    CacheView {
        offset: d.new_offset,
        identity: c.identity,
        total_input: (c.total_input + d.input) as u64,
        total_output: (c.total_output + d.output) as u64,
        total_cache_read: (c.total_cache_read + d.cache_read) as u64,
        total_cache_create: (c.total_cache_create + d.cache_create) as u64,
        context_tokens: context_after(c, d),
        token_history: if d.saw_usage {
            last_of(c.token_history + d.token_history, MAX_HISTORY as nat)
        } else {
            c.token_history
        },
        context_history: if d.saw_usage {
            last_of(c.context_history.push(d.context_tokens), MAX_HISTORY as nat)
        } else {
            c.context_history
        },
        model: match d.model {
            Some(m) => m,
            None => c.model,
        },
        effort: match d.effort {
            Some(e) => e,
            None => c.effort,
        },
        last_activity: later(c.last_activity, d.last_activity),
        turn_count: (c.turn_count + d.turn_count) as u32,
        compaction_count: (c.compaction_count + d.compaction_count) as u32,
        current_task: if d.current_task.len() > 0 {
            d.current_task
        } else {
            c.current_task
        },
        tool_calls: last_of(
            c.tool_calls + first_of(d.tool_calls, MAX_TOOL_CALLS as nat),
            MAX_TOOL_CALLS as nat,
        ),
        file_accesses: last_of(c.file_accesses + d.file_accesses, policy.file_limit()),
        chat_messages: last_of(c.chat_messages + d.chat_messages, policy.chat_limit()),
        initial_prompt: if c.initial_prompt.len() == 0 {
            d.initial_prompt
        } else {
            c.initial_prompt
        },
        first_assistant_text: if c.first_assistant_text.len() == 0 {
            d.first_assistant_text
        } else {
            c.first_assistant_text
        },
    }
}

/// Whether adding the delta keeps every count within its width.
pub open spec fn merge_fits(c: CacheView, d: DeltaView) -> bool {
    &&& c.total_input + d.input <= u64::MAX
    &&& c.total_output + d.output <= u64::MAX
    &&& c.total_cache_read + d.cache_read <= u64::MAX
    &&& c.total_cache_create + d.cache_create <= u64::MAX
    &&& c.turn_count + d.turn_count <= u32::MAX
    &&& c.compaction_count + d.compaction_count <= u32::MAX
}

/// What is known once a delta read from the given file is added. A delta that
/// went no further adds nothing.
pub open spec fn absorbed<P: HostPolicy>(
    policy: P,
    c: CacheView,
    identity: (u64, u64),
    len: u64,
    d: DeltaView,
) -> CacheView {
    let known = resumed(c, identity, len);
    if progressed(known.offset, d) {
        merged(policy, known, d)
    } else {
        known
    }
}

/// Whether adding a delta read from the given file keeps every count within
/// its width.
pub open spec fn absorb_fits(
    c: CacheView,
    identity: (u64, u64),
    len: u64,
    d: DeltaView,
) -> bool {
    let known = resumed(c, identity, len);
    progressed(known.offset, d) ==> merge_fits(known, d)
}

impl SessionCache {
    /// Nothing is known.
    pub fn empty() -> (r: SessionCache)
        ensures
            r@ == no_cache(),
    {
        let r = SessionCache {
            offset: 0,
            identity: (0, 0),
            total_input: 0,
            total_output: 0,
            total_cache_read: 0,
            total_cache_create: 0,
            context_tokens: 0,
            model: String::new(),
            effort: String::new(),
            last_activity: None,
            token_history: Vec::new(),
            context_history: Vec::new(),
            turn_count: 0,
            compaction_count: 0,
            current_task: String::new(),
            tool_calls: Vec::new(),
            chat_messages: Vec::new(),
            file_accesses: Vec::new(),
            initial_prompt: String::new(),
            first_assistant_text: String::new(),
        };
        assert(r@ =~= no_cache());
        r
    }

    /// Whether something is known of the given file of `len` bytes.
    fn resumes(&self, identity: (u64, u64), len: u64) -> (r: bool)
        ensures
            r == (self@.identity == identity && self@.offset <= len),
    {
        self.identity.0 == identity.0 && self.identity.1 == identity.1 && self.offset <= len
    }

    /// Where to go on reading the given file of `len` bytes.
    pub fn resume_offset(&self, identity: (u64, u64), len: u64) -> (r: u64)
        ensures
            r == resumed(self@, identity, len).offset,
    {
        if self.resumes(identity, len) {
            self.offset
        } else {
            0
        }
    }

    /// Whether [`SessionCache::merge`] keeps every count within its width.
    fn merge_fits(&self, d: &SessionDelta) -> (r: bool)
        ensures
            r == merge_fits(self@, d@),
    {
        d.input <= 0xffff_ffff_ffff_ffff - self.total_input && d.output <= 0xffff_ffff_ffff_ffff
            - self.total_output && d.cache_read <= 0xffff_ffff_ffff_ffff - self.total_cache_read
            && d.cache_create <= 0xffff_ffff_ffff_ffff - self.total_cache_create && d.turn_count
            <= 0xffff_ffff - self.turn_count && d.compaction_count <= 0xffff_ffff
            - self.compaction_count
    }

    /// Adds the delta.
    fn merge<P: HostPolicy>(&mut self, policy: &P, delta: SessionDelta)
        requires
            merge_fits(old(self)@, delta@),
        ensures
            final(self)@ == merged(*policy, old(self)@, delta@),
    {
        let ghost before = *self;
        let ghost d = delta@;
        let mut delta = delta;
        self.offset = delta.new_offset;
        self.total_input = self.total_input + delta.input;
        self.total_output = self.total_output + delta.output;
        self.total_cache_read = self.total_cache_read + delta.cache_read;
        self.total_cache_create = self.total_cache_create + delta.cache_create;
        if delta.saw_usage {
            self.context_tokens = delta.context_tokens;
            extend_keeping(&mut self.token_history, delta.token_history, MAX_HISTORY);
            self.context_history.push(delta.context_tokens);
            keep_last(&mut self.context_history, MAX_HISTORY);
        }
        if let Some(m) = delta.model {
            self.model = m;
        }
        if let Some(e) = delta.effort {
            self.effort = e;
        }
        self.last_activity = later_of(self.last_activity, delta.last_activity);
        self.turn_count = self.turn_count + delta.turn_count;
        self.compaction_count = self.compaction_count + delta.compaction_count;
        if !delta.current_task.as_str().is_empty() {
            self.current_task = delta.current_task;
        }
        delta.tool_calls.truncate(MAX_TOOL_CALLS);
        assert(tools(delta.tool_calls@) =~= first_of(d.tool_calls, MAX_TOOL_CALLS as nat));
        let ghost kept_tools = delta.tool_calls@;
        extend_keeping(&mut self.tool_calls, delta.tool_calls, MAX_TOOL_CALLS);
        assert(tools(self.tool_calls@) =~= last_of(
            tools(before.tool_calls@) + tools(kept_tools),
            MAX_TOOL_CALLS as nat,
        ));
        let ghost added_files = delta.file_accesses@;
        extend_keeping(&mut self.file_accesses, delta.file_accesses, policy.max_file_accesses());
        assert(files(self.file_accesses@) =~= last_of(
            files(before.file_accesses@) + files(added_files),
            policy.file_limit(),
        ));
        let ghost added_chats = delta.chat_messages@;
        extend_keeping(&mut self.chat_messages, delta.chat_messages, policy.max_chat_messages());
        assert(chats(self.chat_messages@) =~= last_of(
            chats(before.chat_messages@) + chats(added_chats),
            policy.chat_limit(),
        ));
        if self.initial_prompt.as_str().is_empty() {
            self.initial_prompt = delta.initial_prompt;
        }
        if self.first_assistant_text.as_str().is_empty() {
            self.first_assistant_text = delta.first_assistant_text;
        }
    }

    /// Adds a delta that was read from the given file of `len` bytes, from
    /// [`SessionCache::resume_offset`] on. Where a count would outgrow its
    /// width nothing is added, and the answer is `false`.
    pub fn absorb<P: HostPolicy>(
        &mut self,
        policy: &P,
        identity: (u64, u64),
        len: u64,
        delta: SessionDelta,
    ) -> (r: bool)
        ensures
            r == absorb_fits(old(self)@, identity, len, delta@),
            r ==> final(self)@ == absorbed(*policy, old(self)@, identity, len, delta@),
            !r ==> final(self)@ == resumed(old(self)@, identity, len),
    {
        let from = self.resume_offset(identity, len);
        if !self.resumes(identity, len) {
            *self = SessionCache::empty();
            self.identity = identity;
        }
        assert(self@ =~= resumed(old(self)@, identity, len));
        if delta.new_offset > from || from == 0 {
            if !self.merge_fits(&delta) {
                return false;
            }
            self.merge(policy, delta);
        }
        true
    }
}

/// Whether every list stays within its bound.
pub open spec fn is_bounded<P: HostPolicy>(policy: P, c: CacheView) -> bool {
    &&& c.tool_calls.len() <= MAX_TOOL_CALLS
    &&& c.token_history.len() <= MAX_HISTORY
    &&& c.context_history.len() <= MAX_HISTORY
    &&& c.chat_messages.len() <= policy.chat_limit()
    &&& c.file_accesses.len() <= policy.file_limit()
}

/// However long a session runs, what is kept of it stays bounded.
pub proof fn law_cache_stays_bounded<P: HostPolicy>(
    policy: P,
    c: CacheView,
    identity: (u64, u64),
    len: u64,
    d: DeltaView,
)
    requires
        is_bounded(policy, c),
    ensures
        is_bounded(policy, no_cache()),
        is_bounded(policy, absorbed(policy, c, identity, len, d)),
{
}

/// A session's log, from some place on.
#[derive(Debug)]
pub struct LogFile {
    /// Which file the log is.
    pub identity: (u64, u64),
    /// How many bytes it holds.
    pub len: u64,
    /// The place from which its bytes are given.
    pub start: u64,
    /// Its bytes from there on.
    pub bytes: Vec<u8>,
}

/// The bytes of a log from `from` on, where they are given.
pub open spec fn bytes_from(log: LogFile, from: u64) -> Seq<u8> {
    if from - log.start <= log.bytes@.len() {
        log.bytes@.skip(from - log.start)
    } else {
        Seq::empty()
    }
}

/// The paths of the files that were touched, and what was done to them.
pub open spec fn touched(accesses: Seq<FileView>) -> Seq<(Seq<char>, FileOp)> {
    accesses.map_values(|a: FileView| (a.path, a.operation))
}

/// What reading a log in parts leaves as it is, whatever the log holds. The
/// tool calls and the token history, which each look bounds for itself, are not
/// here; nor are the tokens in the context window, which a look may leave
/// unnamed; nor the history of these, with one entry for each look; nor the
/// turns of the file accesses, which each look counts for itself.
#[verifier::ext_equal]
pub struct Summary {
    pub input: int,
    pub output: int,
    pub cache_read: int,
    pub cache_create: int,
    pub turn_count: int,
    pub compaction_count: int,
    pub model: Seq<char>,
    pub effort: Seq<char>,
    pub last_activity: Option<u64>,
    pub current_task: Seq<char>,
    pub chat_messages: Seq<ChatView>,
    pub touched: Seq<(Seq<char>, FileOp)>,
    pub initial_prompt: Seq<char>,
    pub first_assistant_text: Seq<char>,
}

/// The summary of what is known.
pub open spec fn summary(c: CacheView) -> Summary {
    Summary {
        input: c.total_input as int,
        output: c.total_output as int,
        cache_read: c.total_cache_read as int,
        cache_create: c.total_cache_create as int,
        turn_count: c.turn_count as int,
        compaction_count: c.compaction_count as int,
        model: c.model,
        effort: c.effort,
        last_activity: c.last_activity,
        current_task: c.current_task,
        chat_messages: c.chat_messages,
        touched: touched(c.file_accesses),
        initial_prompt: c.initial_prompt,
        first_assistant_text: c.first_assistant_text,
    }
}

/// The summary once the delta is added, with sums of any size.
pub open spec fn outlook<P: HostPolicy>(policy: P, c: CacheView, d: DeltaView) -> Summary {
    Summary {
        input: c.total_input + d.input,
        output: c.total_output + d.output,
        cache_read: c.total_cache_read + d.cache_read,
        cache_create: c.total_cache_create + d.cache_create,
        turn_count: c.turn_count + d.turn_count,
        compaction_count: c.compaction_count + d.compaction_count,
        ..summary(merged(policy, c, d))
    }
}

/// Whether two deltas, each added to what was known before it, come to the
/// same summary.
#[verifier::opaque]
pub open spec fn alike<P: HostPolicy>(
    policy: P,
    c: CacheView,
    d: DeltaView,
    e: CacheView,
    f: DeltaView,
) -> bool {
    outlook(policy, c, d) == outlook(policy, e, f)
}

/// Deltas that are alike stay so when something happens at the same time.
pub proof fn lemma_time_continues<P: HostPolicy>(
    policy: P,
    c: CacheView,
    d: DeltaView,
    e: CacheView,
    f: DeltaView,
    time: Option<u64>,
)
    requires
        alike(policy, c, d, e, f),
    ensures
        alike(policy, c, seen_at(d, time), e, seen_at(f, time)),
{
    reveal(alike);
    assert(outlook(policy, c, seen_at(d, time)) =~= outlook(policy, e, seen_at(f, time)));
}

/// Deltas that are alike stay so when a turn uses the same tokens.
pub proof fn lemma_usage_continues<P: HostPolicy>(
    policy: P,
    c: CacheView,
    d: DeltaView,
    e: CacheView,
    f: DeltaView,
    u: Usage,
    context: int,
)
    requires
        alike(policy, c, d, e, f),
        usage_fits(d, u, context),
        usage_fits(f, u, context),
    ensures
        alike(policy, c, with_usage(d, u, context), e, with_usage(f, u, context)),
{
    reveal(alike);
    assert(outlook(policy, c, with_usage(d, u, context)) =~= outlook(
        policy,
        e,
        with_usage(f, u, context),
    ));
}

/// Deltas that are alike stay so when a turn names its tokens.
pub proof fn lemma_usage_is_seen<P: HostPolicy>(
    policy: P,
    c: CacheView,
    d: DeltaView,
    e: CacheView,
    f: DeltaView,
)
    requires
        alike(policy, c, d, e, f),
    ensures
        alike(
            policy,
            c,
            DeltaView { saw_usage: true, ..d },
            e,
            DeltaView { saw_usage: true, ..f },
        ),
{
    reveal(alike);
    assert(outlook(policy, c, DeltaView { saw_usage: true, ..d }) =~= outlook(
        policy,
        e,
        DeltaView { saw_usage: true, ..f },
    ));
}

/// Deltas that are alike stay so when the effort is named.
pub proof fn lemma_effort_continues<P: HostPolicy>(
    policy: P,
    c: CacheView,
    d: DeltaView,
    e: CacheView,
    f: DeltaView,
    level: Seq<char>,
)
    requires
        alike(policy, c, d, e, f),
    ensures
        alike(policy, c, with_effort(d, level), e, with_effort(f, level)),
{
    reveal(alike);
    assert(outlook(policy, c, with_effort(d, level)) =~= outlook(policy, e, with_effort(f, level)));
}

/// Deltas that are alike stay so when one more compaction is counted.
pub proof fn lemma_compaction_continues<P: HostPolicy>(
    policy: P,
    c: CacheView,
    d: DeltaView,
    e: CacheView,
    f: DeltaView,
)
    requires
        alike(policy, c, d, e, f),
        d.compaction_count < u32::MAX,
        f.compaction_count < u32::MAX,
    ensures
        alike(policy, c, with_compaction(d), e, with_compaction(f)),
{
    reveal(alike);
    assert(outlook(policy, c, with_compaction(d)) =~= outlook(policy, e, with_compaction(f)));
}

/// Deltas that are alike stay so when the same model is named.
pub proof fn lemma_model_continues<P: HostPolicy>(
    policy: P,
    c: CacheView,
    d: DeltaView,
    e: CacheView,
    f: DeltaView,
    model: Option<Seq<char>>,
)
    requires
        alike(policy, c, d, e, f),
    ensures
        alike(policy, c, with_model(d, model), e, with_model(f, model)),
{
    reveal(alike);
    assert(outlook(policy, c, with_model(d, model)) =~= outlook(policy, e, with_model(f, model)));
}

proof fn lemma_chat_continues<P: HostPolicy>(
    policy: P,
    c: CacheView,
    d: DeltaView,
    e: CacheView,
    f: DeltaView,
    role: ChatRole,
    text: Seq<char>,
)
    requires
        last_of(c.chat_messages + d.chat_messages, policy.chat_limit()) == last_of(
            e.chat_messages + f.chat_messages,
            policy.chat_limit(),
        ),
    ensures
        last_of(
            c.chat_messages + chat_with(d.chat_messages, role, text, policy.chat_limit()),
            policy.chat_limit(),
        ) == last_of(
            e.chat_messages + chat_with(f.chat_messages, role, text, policy.chat_limit()),
            policy.chat_limit(),
        ),
{
    let n = policy.chat_limit();
    let m = ChatView { role, text };
    if text.len() > 0 {
        lemma_bounded_part(c.chat_messages, d.chat_messages.push(m), n);
        lemma_bounded_part(e.chat_messages, f.chat_messages.push(m), n);
        law_bounded_extension(c.chat_messages + d.chat_messages, seq![m], n);
        law_bounded_extension(e.chat_messages + f.chat_messages, seq![m], n);
        assert(c.chat_messages + d.chat_messages.push(m) =~= (c.chat_messages + d.chat_messages)
            + seq![m]);
        assert(e.chat_messages + f.chat_messages.push(m) =~= (e.chat_messages + f.chat_messages)
            + seq![m]);
    }
}

/// Deltas that are alike stay so when the user writes the same.
pub proof fn lemma_user_continues<P: HostPolicy>(
    policy: P,
    c: CacheView,
    d: DeltaView,
    e: CacheView,
    f: DeltaView,
    text: Seq<char>,
)
    requires
        alike(policy, c, d, e, f),
    ensures
        alike(policy, c, with_user_text(d, policy, text), e, with_user_text(f, policy, text)),
{
    reveal(alike);
    lemma_chat_continues(policy, c, d, e, f, ChatRole::User, text);
    assert(outlook(policy, c, with_user_text(d, policy, text)) =~= outlook(
        policy,
        e,
        with_user_text(f, policy, text),
    ));
}

/// Deltas that are alike stay so when the assistant takes the same turn.
pub proof fn lemma_assistant_continues<P: HostPolicy>(
    policy: P,
    c: CacheView,
    d: DeltaView,
    e: CacheView,
    f: DeltaView,
    text: Seq<char>,
)
    requires
        alike(policy, c, d, e, f),
    ensures
        alike(
            policy,
            c,
            with_assistant_text(d, policy, text),
            e,
            with_assistant_text(f, policy, text),
        ),
{
    reveal(alike);
    lemma_chat_continues(policy, c, d, e, f, ChatRole::Assistant, text);
    assert(outlook(policy, c, with_assistant_text(d, policy, text)) =~= outlook(
        policy,
        e,
        with_assistant_text(f, policy, text),
    ));
}

/// Deltas that are alike stay so when one more turn is counted.
pub proof fn lemma_turn_continues<P: HostPolicy>(
    policy: P,
    c: CacheView,
    d: DeltaView,
    e: CacheView,
    f: DeltaView,
)
    requires
        alike(policy, c, d, e, f),
        d.turn_count < u32::MAX,
        f.turn_count < u32::MAX,
    ensures
        alike(policy, c, with_turn(d), e, with_turn(f)),
{
    reveal(alike);
    assert(outlook(policy, c, with_turn(d)) =~= outlook(policy, e, with_turn(f)));
}

proof fn lemma_touched(s: Seq<FileView>, n: nat)
    ensures
        touched(last_of(s, n)) == last_of(touched(s), n),
{
    assert(touched(last_of(s, n)) =~= last_of(touched(s), n));
}

/// One more access is the last of those that are kept.
proof fn lemma_access_is_last(a: Seq<FileView>, b: Seq<FileView>, access: FileView, n: nat)
    ensures
        touched(last_of(a + b.push(access), n)) == last_of(
            touched(last_of(a + b, n)) + seq![(access.path, access.operation)],
            n,
        ),
{
    let t = seq![(access.path, access.operation)];
    lemma_touched(a + b.push(access), n);
    lemma_touched(a + b, n);
    assert(touched(a + b.push(access)) =~= touched(a + b) + t);
    law_bounded_extension(touched(a + b), t, n);
}

/// Deltas that are alike stay so when the same tool is called.
pub proof fn lemma_tool_continues<P: HostPolicy>(
    policy: P,
    c: CacheView,
    d: DeltaView,
    e: CacheView,
    f: DeltaView,
    name: Seq<char>,
    arg: Seq<char>,
    op: Option<FileOp>,
    path: Option<Seq<char>>,
)
    requires
        alike(policy, c, d, e, f),
    ensures
        alike(
            policy,
            c,
            with_tool_call(d, name, arg, op, path),
            e,
            with_tool_call(f, name, arg, op, path),
        ),
{
    reveal(alike);
    let n = policy.file_limit();
    match (op, path) {
        (Some(operation), Some(p)) => {
            lemma_access_is_last(
                c.file_accesses,
                d.file_accesses,
                FileView { path: p, operation, turn_index: d.turn_count },
                n,
            );
            lemma_access_is_last(
                e.file_accesses,
                f.file_accesses,
                FileView { path: p, operation, turn_index: f.turn_count },
                n,
            );
            assert(outlook(policy, c, d).touched == outlook(policy, e, f).touched);
        },
        _ => {},
    }
    assert(outlook(policy, c, with_tool_call(d, name, arg, op, path)) =~= outlook(
        policy,
        e,
        with_tool_call(f, name, arg, op, path),
    ));
}

/// Adding nothing keeps what is known.
pub proof fn lemma_nothing_is_merged<P: HostPolicy>(policy: P, c: CacheView, offset: u64)
    requires
        is_bounded(policy, c),
    ensures
        merged(policy, c, no_delta(offset)) == (CacheView { offset, ..c }),
        outlook(policy, c, no_delta(offset)) == summary(c),
{
    assert(c.chat_messages + Seq::<ChatView>::empty() =~= c.chat_messages);
    assert(c.file_accesses + Seq::<FileView>::empty() =~= c.file_accesses);
    assert(first_of(Seq::<ToolView>::empty(), MAX_TOOL_CALLS as nat) =~= Seq::<ToolView>::empty());
    assert(c.tool_calls + Seq::<ToolView>::empty() =~= c.tool_calls);
    if c.initial_prompt.len() == 0 {
        assert(c.initial_prompt =~= Seq::empty());
    }
    if c.first_assistant_text.len() == 0 {
        assert(c.first_assistant_text =~= Seq::empty());
    }
    assert(merged(policy, c, no_delta(offset)) =~= (CacheView { offset, ..c }));
    assert(outlook(policy, c, no_delta(offset)) =~= summary(c));
}

/// Whether two deltas, each added to what was known before it, come to the
/// same tool calls and token history, where no bound is met.
pub open spec fn same_lists(c: CacheView, d: DeltaView, e: CacheView, f: DeltaView) -> bool {
    &&& c.tool_calls + d.tool_calls == e.tool_calls + f.tool_calls
    &&& c.token_history + d.token_history == e.token_history + f.token_history
}

/// Whether the delta, added to what was known, meets no bound of the tool calls
/// and the token history.
pub open spec fn lists_fit(c: CacheView, d: DeltaView) -> bool {
    &&& c.tool_calls.len() + d.tool_calls.len() < MAX_TOOL_CALLS
    &&& c.token_history.len() + d.token_history.len() < MAX_HISTORY
}

/// Whether a delta that has a token history has seen a turn's tokens.
pub open spec fn history_is_noted(d: DeltaView) -> bool {
    d.saw_usage || d.token_history.len() == 0
}

/// Deltas that come to the same lists still do when a turn uses the same
/// tokens.
pub proof fn lemma_usage_lists(
    c: CacheView,
    d: DeltaView,
    e: CacheView,
    f: DeltaView,
    u: Usage,
    context: int,
)
    requires
        same_lists(c, d, e, f),
        lists_fit(c, with_usage(d, u, context)),
    ensures
        same_lists(c, with_usage(d, u, context), e, with_usage(f, u, context)),
{
    let n = (u.input + u.output + u.cache_read + u.cache_create) as u64;
    assert((c.token_history + d.token_history).len() == (e.token_history + f.token_history).len());
    assert(c.token_history + d.token_history.push(n) =~= (c.token_history + d.token_history).push(
        n,
    ));
    assert(e.token_history + f.token_history.push(n) =~= (e.token_history + f.token_history).push(
        n,
    ));
}

/// Deltas that come to the same lists still do when the same tool is called.
pub proof fn lemma_tool_lists(
    c: CacheView,
    d: DeltaView,
    e: CacheView,
    f: DeltaView,
    name: Seq<char>,
    arg: Seq<char>,
    op: Option<FileOp>,
    path: Option<Seq<char>>,
)
    requires
        same_lists(c, d, e, f),
        lists_fit(c, with_tool_call(d, name, arg, op, path)),
    ensures
        same_lists(
            c,
            with_tool_call(d, name, arg, op, path),
            e,
            with_tool_call(f, name, arg, op, path),
        ),
{
    let t = ToolView { name, arg: truncated(arg, 40), duration_ms: 0 };
    assert((c.tool_calls + d.tool_calls).len() == (e.tool_calls + f.tool_calls).len());
    assert(c.tool_calls + d.tool_calls.push(t) =~= (c.tool_calls + d.tool_calls).push(t));
    assert(e.tool_calls + f.tool_calls.push(t) =~= (e.tool_calls + f.tool_calls).push(t));
}

} // verus!
