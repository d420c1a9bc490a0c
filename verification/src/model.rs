//! Sessions as the collectors report them.
use crate::text::strs;
use vstd::prelude::*;

verus! {

/// What a session is doing.
#[derive(Clone, Copy, PartialEq, Eq, Structural, Debug)]
pub enum SessionStatus {
    Thinking,
    Executing,
    Waiting,
    Unknown,
}

/// Who wrote a chat message.
#[derive(Clone, Copy, PartialEq, Eq, Structural, Debug)]
pub enum ChatRole {
    User,
    Assistant,
}

/// What a tool did to a file.
#[derive(Clone, Copy, PartialEq, Eq, Structural, Debug)]
pub enum FileOp {
    Read,
    Write,
    Edit,
}

/// How much of the context window is in use.
#[derive(Clone, Copy, PartialEq, Eq, Structural, Debug)]
pub enum ContextPercent {
    /// Not known, shown as zero.
    NotKnown,
    /// So many tokens of a window of so many.
    Tokens { used: u64, window: u64 },
    /// A percentage that the agent reported, by the bit pattern of its
    /// double-precision value.
    Reported { bits: u64 },
}

/// One message of a conversation.
#[derive(Debug)]
pub struct ChatMessage {
    pub role: ChatRole,
    pub text: String,
}

#[verifier::ext_equal]
pub struct ChatView {
    pub role: ChatRole,
    pub text: Seq<char>,
}

impl View for ChatMessage {
    type V = ChatView;

    open spec fn view(&self) -> ChatView {
        ChatView { role: self.role, text: self.text@ }
    }
}

/// One call of a tool.
#[derive(Debug)]
pub struct ToolCall {
    pub name: String,
    pub arg: String,
    pub duration_ms: u64,
}

#[verifier::ext_equal]
pub struct ToolView {
    pub name: Seq<char>,
    pub arg: Seq<char>,
    pub duration_ms: u64,
}

impl View for ToolCall {
    type V = ToolView;

    open spec fn view(&self) -> ToolView {
        ToolView { name: self.name@, arg: self.arg@, duration_ms: self.duration_ms }
    }
}

/// One access to a file.
#[derive(Debug)]
pub struct FileAccess {
    pub path: String,
    pub operation: FileOp,
    pub turn_index: u32,
}

#[verifier::ext_equal]
pub struct FileView {
    pub path: Seq<char>,
    pub operation: FileOp,
    pub turn_index: u32,
}

impl View for FileAccess {
    type V = FileView;

    open spec fn view(&self) -> FileView {
        FileView { path: self.path@, operation: self.operation, turn_index: self.turn_index }
    }
}

/// One process below a session's own.
#[derive(Debug)]
pub struct ChildProcess {
    pub pid: u32,
    pub command: String,
    pub mem_kb: u64,
    pub port: Option<u16>,
}

#[verifier::ext_equal]
pub struct ChildView {
    pub pid: u32,
    pub command: Seq<char>,
    pub mem_kb: u64,
    pub port: Option<u16>,
}

impl View for ChildProcess {
    type V = ChildView;

    open spec fn view(&self) -> ChildView {
        ChildView { pid: self.pid, command: self.command@, mem_kb: self.mem_kb, port: self.port }
    }
}

/// What the messages of a vector stand for.
pub open spec fn chats(v: Seq<ChatMessage>) -> Seq<ChatView> {
    v.map_values(|x: ChatMessage| x@)
}

/// What the tool calls of a vector stand for.
pub open spec fn tools(v: Seq<ToolCall>) -> Seq<ToolView> {
    v.map_values(|x: ToolCall| x@)
}

/// What the file accesses of a vector stand for.
pub open spec fn files(v: Seq<FileAccess>) -> Seq<FileView> {
    v.map_values(|x: FileAccess| x@)
}

/// What the processes of a vector stand for.
pub open spec fn kids(v: Seq<ChildProcess>) -> Seq<ChildView> {
    v.map_values(|x: ChildProcess| x@)
}

/// What an optional string stands for.
pub open spec fn opt_string(s: Option<String>) -> Option<Seq<char>> {
    match s {
        Some(t) => Some(t@),
        None => None,
    }
}

/// A copy of the messages.
pub fn copy_chats(v: &Vec<ChatMessage>) -> (r: Vec<ChatMessage>)
    ensures
        r@ == v@,
{
    let mut out: Vec<ChatMessage> = Vec::new();
    let mut i: usize = 0;
    while i < v.len()
        invariant
            i <= v@.len(),
            out@ == v@.take(i as int),
        decreases v@.len() - i,
    {
        out.push(ChatMessage { role: v[i].role, text: v[i].text.clone() });
        assert(out@ =~= v@.take(i + 1));
        i += 1;
    }
    assert(v@.take(i as int) =~= v@);
    out
}

/// A copy of the tool calls.
pub fn copy_tools(v: &Vec<ToolCall>) -> (r: Vec<ToolCall>)
    ensures
        r@ == v@,
{
    let mut out: Vec<ToolCall> = Vec::new();
    let mut i: usize = 0;
    while i < v.len()
        invariant
            i <= v@.len(),
            out@ == v@.take(i as int),
        decreases v@.len() - i,
    {
        out.push(
            ToolCall {
                name: v[i].name.clone(),
                arg: v[i].arg.clone(),
                duration_ms: v[i].duration_ms,
            },
        );
        assert(out@ =~= v@.take(i + 1));
        i += 1;
    }
    assert(v@.take(i as int) =~= v@);
    out
}

/// A copy of the file accesses.
pub fn copy_files(v: &Vec<FileAccess>) -> (r: Vec<FileAccess>)
    ensures
        r@ == v@,
{
    let mut out: Vec<FileAccess> = Vec::new();
    let mut i: usize = 0;
    while i < v.len()
        invariant
            i <= v@.len(),
            out@ == v@.take(i as int),
        decreases v@.len() - i,
    {
        out.push(
            FileAccess {
                path: v[i].path.clone(),
                operation: v[i].operation,
                turn_index: v[i].turn_index,
            },
        );
        assert(out@ =~= v@.take(i + 1));
        i += 1;
    }
    assert(v@.take(i as int) =~= v@);
    out
}

/// A copy of the counts.
pub fn copy_counts(v: &Vec<u64>) -> (r: Vec<u64>)
    ensures
        r@ == v@,
{
    let mut out: Vec<u64> = Vec::new();
    let mut i: usize = 0;
    while i < v.len()
        invariant
            i <= v@.len(),
            out@ == v@.take(i as int),
        decreases v@.len() - i,
    {
        out.push(v[i]);
        assert(out@ =~= v@.take(i + 1));
        i += 1;
    }
    assert(v@.take(i as int) =~= v@);
    out
}

/// A vector of one string.
pub fn one_task(task: &str) -> (r: Vec<String>)
    ensures
        strs(r@) == seq![task@],
{
    let mut out: Vec<String> = Vec::new();
    out.push(task.to_owned());
    assert(strs(out@) =~= seq![task@]);
    out
}

/// One session of an agent.
#[derive(Debug)]
pub struct AgentSession {
    pub agent_cli: &'static str,
    pub pid: u32,
    pub session_id: String,
    pub cwd: String,
    pub project_name: String,
    pub started_at: u64,
    pub status: SessionStatus,
    pub model: String,
    pub effort: String,
    pub context_percent: ContextPercent,
    pub total_input_tokens: u64,
    pub total_output_tokens: u64,
    pub total_cache_read: u64,
    pub total_cache_create: u64,
    pub turn_count: u32,
    pub current_tasks: Vec<String>,
    pub mem_mb: u64,
    pub version: String,
    pub git_branch: String,
    pub git_added: u32,
    pub git_modified: u32,
    pub token_history: Vec<u64>,
    pub context_history: Vec<u64>,
    pub compaction_count: u32,
    pub context_window: u64,
    pub subagents: Vec<String>,
    pub mem_file_count: u32,
    pub mem_line_count: u32,
    pub children: Vec<ChildProcess>,
    pub initial_prompt: String,
    pub first_assistant_text: String,
    pub chat_messages: Vec<ChatMessage>,
    pub tool_calls: Vec<ToolCall>,
    pub pending_since_ms: u64,
    pub thinking_since_ms: u64,
    pub file_accesses: Vec<FileAccess>,
    pub config_root: String,
}

#[verifier::ext_equal]
pub struct SessionView {
    pub agent_cli: Seq<char>,
    pub pid: u32,
    pub session_id: Seq<char>,
    pub cwd: Seq<char>,
    pub project_name: Seq<char>,
    pub started_at: u64,
    pub status: SessionStatus,
    pub model: Seq<char>,
    pub effort: Seq<char>,
    pub context_percent: ContextPercent,
    pub total_input_tokens: u64,
    pub total_output_tokens: u64,
    pub total_cache_read: u64,
    pub total_cache_create: u64,
    pub turn_count: u32,
    pub current_tasks: Seq<Seq<char>>,
    pub mem_mb: u64,
    pub version: Seq<char>,
    pub git_branch: Seq<char>,
    pub git_added: u32,
    pub git_modified: u32,
    pub token_history: Seq<u64>,
    pub context_history: Seq<u64>,
    pub compaction_count: u32,
    pub context_window: u64,
    pub subagents: Seq<Seq<char>>,
    pub mem_file_count: u32,
    pub mem_line_count: u32,
    pub children: Seq<ChildView>,
    pub initial_prompt: Seq<char>,
    pub first_assistant_text: Seq<char>,
    pub chat_messages: Seq<ChatView>,
    pub tool_calls: Seq<ToolView>,
    pub pending_since_ms: u64,
    pub thinking_since_ms: u64,
    pub file_accesses: Seq<FileView>,
    pub config_root: Seq<char>,
}

impl View for AgentSession {
    type V = SessionView;

    open spec fn view(&self) -> SessionView {
        SessionView {
            agent_cli: self.agent_cli@,
            pid: self.pid,
            session_id: self.session_id@,
            cwd: self.cwd@,
            project_name: self.project_name@,
            started_at: self.started_at,
            status: self.status,
            model: self.model@,
            effort: self.effort@,
            context_percent: self.context_percent,
            total_input_tokens: self.total_input_tokens,
            total_output_tokens: self.total_output_tokens,
            total_cache_read: self.total_cache_read,
            total_cache_create: self.total_cache_create,
            turn_count: self.turn_count,
            current_tasks: strs(self.current_tasks@),
            mem_mb: self.mem_mb,
            version: self.version@,
            git_branch: self.git_branch@,
            git_added: self.git_added,
            git_modified: self.git_modified,
            token_history: self.token_history@,
            context_history: self.context_history@,
            compaction_count: self.compaction_count,
            context_window: self.context_window,
            subagents: strs(self.subagents@),
            mem_file_count: self.mem_file_count,
            mem_line_count: self.mem_line_count,
            children: kids(self.children@),
            initial_prompt: self.initial_prompt@,
            first_assistant_text: self.first_assistant_text@,
            chat_messages: chats(self.chat_messages@),
            tool_calls: tools(self.tool_calls@),
            pending_since_ms: self.pending_since_ms,
            thinking_since_ms: self.thinking_since_ms,
            file_accesses: files(self.file_accesses@),
            config_root: self.config_root@,
        }
    }
}

/// What the sessions of a vector stand for.
pub open spec fn session_views(v: Seq<AgentSession>) -> Seq<SessionView> {
    v.map_values(|x: AgentSession| x@)
}

} // verus!
