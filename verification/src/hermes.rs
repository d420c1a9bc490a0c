//! Sessions of Hermes.
//!
//! Hermes keeps its sessions in a database, with their tokens but without
//! their processes. A process is paired with a session by recency: the session
//! that was active last goes with the largest process, and so on.
use crate::content::or_empty;
use crate::json::json_text;
use crate::json::parse_json;
use crate::json::Json;
use crate::json::JsonTree;
use crate::jsonl::trees;
use crate::model::one_task;
use crate::model::session_views;
use crate::model::AgentSession;
use crate::model::ContextPercent;
use crate::model::SessionStatus;
use crate::model::SessionView;
use crate::number::seconds_to_millis;
use crate::number::thousandfold;
use crate::order::is_stable_sorting;
use crate::order::law_sorting_keeps_entries;
use crate::order::sort_descending;
use crate::order::Ranked;
use crate::policy::HostPolicy;
use crate::process::active_below;
use crate::process::agent_pids;
use crate::process::binary_name;
use crate::process::children_view;
use crate::process::cmd_first_token_has_binary;
use crate::process::collect_children;
use crate::process::has_active_descendant;
use crate::process::is_agent;
use crate::process::CommandFilter;
use crate::process::ProcInfo;
use crate::process::SharedProcessData;
use crate::report::memory_mb;
use crate::report::memory_mb_of;
use crate::report::ACTIVE_LOAD;
use crate::report::ACTIVITY_FRESH_SECS;
use crate::text::base_name;
use crate::text::base_name_of;
use crate::text::chars_of;
use crate::text::clipped;
use crate::text::contains;
use crate::text::contains_str;
use crate::text::seqs;
use crate::text::string_of;
use crate::text::text_eq;
use crate::text::trim;
use crate::text::trim_str;
use crate::text::truncate_field;
use crate::text::words;
use crate::text::words_of;
use std::collections::HashMap;
use vstd::prelude::*;

verus! {

broadcast use vstd::std_specs::hash::group_hash_axioms;

/// A session without a process is shown for this many seconds after it was
/// active; then it counts as one that ended without saying so.
pub const NO_PID_RECENCY_WINDOW_SECS: u64 = 1_800;

/// The load, in thousandths of a percent, over which the process of a session
/// is at work.
pub const BUSY_LOAD: u64 = 1_000;

/// The query for the open interactive sessions, the one that was active last
/// first.
pub const SESSIONS_QUERY: &'static str = "
SELECT
  s.id,
  COALESCE(s.title, '')              AS title,
  COALESCE(s.model, '')             AS model,
  COALESCE(s.source, '')            AS source,
  s.started_at                      AS started_at,
  COALESCE(s.message_count, 0)      AS message_count,
  COALESCE(s.tool_call_count, 0)    AS tool_call_count,
  COALESCE(s.input_tokens, 0)       AS input_tokens,
  COALESCE(s.output_tokens, 0)      AS output_tokens,
  COALESCE(s.cache_read_tokens, 0)  AS cache_read_tokens,
  COALESCE(s.cache_write_tokens, 0) AS cache_write_tokens,
  COALESCE(s.reasoning_tokens, 0)   AS reasoning_tokens,
  COALESCE(
    (SELECT MAX(m.timestamp) FROM messages m WHERE m.session_id = s.id),
    s.started_at
  )                                 AS last_active,
  COALESCE(
    (SELECT SUBSTR(m.content, 1, 200)
       FROM messages m
      WHERE m.session_id = s.id
        AND m.role = 'user'
        AND m.content IS NOT NULL
      ORDER BY m.timestamp, m.id LIMIT 1),
    ''
  )                                 AS preview
FROM sessions s
WHERE s.ended_at IS NULL
  AND s.source = 'cli'
ORDER BY last_active DESC
LIMIT 20;";

/// One row of the database.
#[derive(Debug)]
pub struct DbSession {
    pub id: String,
    pub title: String,
    pub model: String,
    pub source: String,
    /// When the session started, in milliseconds from 1970.
    pub started_at_ms: u64,
    /// When it was active last, in milliseconds from 1970.
    pub last_active_ms: u64,
    pub message_count: u64,
    pub tool_call_count: u64,
    pub input_tokens: u64,
    pub output_tokens: u64,
    pub cache_read: u64,
    pub cache_write: u64,
    pub reasoning_tokens: u64,
    /// The beginning of the user's first message.
    pub preview: String,
}

#[verifier::ext_equal]
pub struct RowView {
    pub id: Seq<char>,
    pub title: Seq<char>,
    pub model: Seq<char>,
    pub source: Seq<char>,
    pub started_at_ms: u64,
    pub last_active_ms: u64,
    pub message_count: u64,
    pub tool_call_count: u64,
    pub input_tokens: u64,
    pub output_tokens: u64,
    pub cache_read: u64,
    pub cache_write: u64,
    pub reasoning_tokens: u64,
    pub preview: Seq<char>,
}

impl View for DbSession {
    type V = RowView;

    open spec fn view(&self) -> RowView {
        RowView {
            id: self.id@,
            title: self.title@,
            model: self.model@,
            source: self.source@,
            started_at_ms: self.started_at_ms,
            last_active_ms: self.last_active_ms,
            message_count: self.message_count,
            tool_call_count: self.tool_call_count,
            input_tokens: self.input_tokens,
            output_tokens: self.output_tokens,
            cache_read: self.cache_read,
            cache_write: self.cache_write,
            reasoning_tokens: self.reasoning_tokens,
            preview: self.preview@,
        }
    }
}

/// What the rows of a vector stand for.
pub open spec fn row_views(v: Seq<DbSession>) -> Seq<RowView> {
    v.map_values(|x: DbSession| x@)
}

/// What optional rows stand for.
pub open spec fn opt_rows(v: Option<Vec<DbSession>>) -> Option<Seq<RowView>> {
    match v {
        Some(rows) => Some(row_views(rows@)),
        None => None,
    }
}

/// The number that a field of a row holds, by its bit pattern.
pub open spec fn field_bits(row: JsonTree, key: Seq<char>) -> Option<u64> {
    match row.get(key) {
        Some(v) => v.as_bits(),
        None => None,
    }
}

/// The time that a field of a row holds, in seconds, as milliseconds; 0 where
/// it holds none.
pub open spec fn field_millis(row: JsonTree, key: Seq<char>) -> u64 {
    match field_bits(row, key) {
        Some(bits) => thousandfold(bits),
        None => 0,
    }
}

/// The count that a field of a row holds, or 0.
pub open spec fn field_count(row: JsonTree, key: Seq<char>) -> u64 {
    match row.get_u64(key) {
        Some(n) => n,
        None => 0,
    }
}

/// The session that a row describes.
pub open spec fn row_session<P: HostPolicy>(policy: P, row: JsonTree) -> RowView {
    RowView {
        id: or_empty(row.get_str("id"@)),
        title: policy.redacted(clipped(or_empty(row.get_str("title"@)), 512)),
        model: or_empty(row.get_str("model"@)),
        source: or_empty(row.get_str("source"@)),
        started_at_ms: field_millis(row, "started_at"@),
        last_active_ms: if field_bits(row, "last_active"@) is Some {
            field_millis(row, "last_active"@)
        } else {
            field_millis(row, "started_at"@)
        },
        message_count: field_count(row, "message_count"@),
        tool_call_count: field_count(row, "tool_call_count"@),
        input_tokens: field_count(row, "input_tokens"@),
        output_tokens: field_count(row, "output_tokens"@),
        cache_read: field_count(row, "cache_read_tokens"@),
        cache_write: field_count(row, "cache_write_tokens"@),
        reasoning_tokens: field_count(row, "reasoning_tokens"@),
        preview: policy.redacted(clipped(or_empty(row.get_str("preview"@)), 200)),
    }
}

/// The sessions that the rows describe.
pub open spec fn row_sessions<P: HostPolicy>(policy: P, rows: Seq<JsonTree>) -> Seq<RowView> {
    rows.map_values(|row: JsonTree| row_session(policy, row))
}

/// The sessions that the answer to the query describes: none where the answer
/// is empty, and nothing is known where it is no list of rows.
pub open spec fn answer_sessions<P: HostPolicy>(policy: P, answer: Seq<char>) -> Option<
    Seq<RowView>,
> {
    if trim(answer).len() == 0 {
        Some(Seq::empty())
    } else {
        match json_text(trim(answer)) {
            Some(JsonTree::Array(rows)) => Some(row_sessions(policy, rows)),
            _ => None,
        }
    }
}

/// The text that a field of a row holds, or nothing.
fn text_at(row: &Json, key: &str) -> (r: String)
    ensures
        r@ == or_empty(row@.get_str(key@)),
{
    match row.get_str(key) {
        Some(s) => s.to_owned(),
        None => String::new(),
    }
}

/// The count that a field of a row holds, or 0.
fn count_at(row: &Json, key: &str) -> (r: u64)
    ensures
        r == field_count(row@, key@),
{
    match row.get_u64(key) {
        Some(n) => n,
        None => 0,
    }
}

/// The time that a field of a row holds, in milliseconds.
fn millis_at(row: &Json, key: &str) -> (r: Option<u64>)
    ensures
        r is Some <==> field_bits(row@, key@) is Some,
        r is Some ==> r->0 == field_millis(row@, key@),
{
    match row.get(key) {
        Some(v) => match v.as_bits() {
            Some(bits) => Some(seconds_to_millis(bits)),
            None => None,
        },
        None => None,
    }
}

/// The session that a row describes.
pub fn session_of_row<P: HostPolicy>(policy: &P, row: &Json) -> (r: DbSession)
    ensures
        r@ == row_session(*policy, row@),
{
    let started_at_ms: u64 = match millis_at(row, "started_at") {
        Some(ms) => ms,
        None => 0,
    };
    let last_active_ms: u64 = match millis_at(row, "last_active") {
        Some(ms) => ms,
        None => started_at_ms,
    };
    let mut title = text_at(row, "title");
    let mut preview = text_at(row, "preview");
    truncate_field(&mut title, 512);
    truncate_field(&mut preview, 200);
    let r = DbSession {
        id: text_at(row, "id"),
        title: policy.redact_secrets(title.as_str()),
        model: text_at(row, "model"),
        source: text_at(row, "source"),
        started_at_ms,
        last_active_ms,
        message_count: count_at(row, "message_count"),
        tool_call_count: count_at(row, "tool_call_count"),
        input_tokens: count_at(row, "input_tokens"),
        output_tokens: count_at(row, "output_tokens"),
        cache_read: count_at(row, "cache_read_tokens"),
        cache_write: count_at(row, "cache_write_tokens"),
        reasoning_tokens: count_at(row, "reasoning_tokens"),
        preview: policy.redact_secrets(preview.as_str()),
    };
    assert(r@ =~= row_session(*policy, row@));
    r
}

/// The sessions that the rows describe.
pub fn sessions_of_rows<P: HostPolicy>(policy: &P, rows: &Vec<Json>) -> (r: Vec<DbSession>)
    ensures
        row_views(r@) == row_sessions(*policy, trees(rows@)),
{
    let ghost want = row_sessions(*policy, trees(rows@));
    let mut out: Vec<DbSession> = Vec::new();
    let mut i: usize = 0;
    while i < rows.len()
        invariant
            i <= rows@.len(),
            want == row_sessions(*policy, trees(rows@)),
            row_views(out@) == want.take(i as int),
        decreases rows@.len() - i,
    {
        let ghost before = row_views(out@);
        let s = session_of_row(policy, &rows[i]);
        out.push(s);
        assert(row_views(out@) =~= before.push(s@));
        assert(want.take(i + 1) =~= before.push(want[i as int]));
        i += 1;
    }
    assert(want.take(i as int) =~= want);
    out
}

/// The sessions that the answer to the query describes.
pub fn query_sessions<P: HostPolicy>(policy: &P, answer: &str) -> (r: Option<Vec<DbSession>>)
    ensures
        opt_rows(r) == answer_sessions(*policy, answer@),
{
    let text = trim_str(answer);
    if text.as_str().is_empty() {
        let none: Vec<DbSession> = Vec::new();
        assert(row_views(none@) =~= Seq::empty());
        return Some(none);
    }
    match parse_json(text.as_str()) {
        Some(Json::Array(rows)) => {
            assert(json_text(trim(answer@))->0->Array_0 =~= trees(rows@));
            Some(sessions_of_rows(policy, &rows))
        },
        _ => None,
    }
}

/// The command lines of Hermes: its own binary, a wrapper that runs it, or a
/// path into it; but neither its messaging gateway, nor a search for it, nor
/// this program.
pub struct HermesCommand {

}

impl CommandFilter for HermesCommand {
    open spec fn wants(cmd: Seq<char>) -> bool {
        &&& binary_name(cmd) == "hermes"@ || words(cmd).contains("hermes"@) || contains(
            cmd,
            "/hermes"@,
        )
        &&& !contains(cmd, "gateway"@)
        &&& !contains(cmd, "grep"@)
        &&& !contains(cmd, "abtop"@)
    }

    fn wants_command(cmd: &str) -> (r: bool) {
        (cmd_first_token_has_binary(cmd, "hermes") || has_word(cmd, "hermes") || contains_str(
            cmd,
            "/hermes",
        )) && !contains_str(cmd, "gateway") && !contains_str(cmd, "grep") && !contains_str(
            cmd,
            "abtop",
        )
    }
}

/// Whether one of the words of a command line is `word`.
fn has_word(cmd: &str, word: &str) -> (r: bool)
    ensures
        r == words(cmd@).contains(word@),
{
    let ws = words_of(chars_of(cmd).as_slice());
    let ghost all = words(cmd@);
    let mut i: usize = 0;
    while i < ws.len()
        invariant
            i <= ws@.len(),
            all == seqs(ws@),
            all == words(cmd@),
            forall|k: int| 0 <= k < i ==> #[trigger] all[k] != word@,
        decreases ws@.len() - i,
    {
        assert(all[i as int] == ws@[i as int]@);
        if text_eq(string_of(ws[i].as_slice()).as_str(), word) {
            return true;
        }
        i += 1;
    }
    false
}

/// The memory of a process, or 0 where it is not known.
pub open spec fn memory_kb(info: Map<u32, ProcInfo>, pid: u32) -> u64 {
    if info.contains_key(pid) {
        info[pid].rss_kb
    } else {
        0
    }
}

/// A process and its memory.
#[derive(Clone, Copy, PartialEq, Eq, Structural, Debug)]
struct SizedProcess {
    pid: u32,
    rss_kb: u64,
}

impl Ranked for SizedProcess {
    closed spec fn rank(&self) -> u64 {
        self.rss_kb
    }

    fn rank_of(&self) -> (r: u64) {
        self.rss_kb
    }
}

/// Whether `order` holds the processes of Hermes, each once, the largest
/// first.
pub open spec fn is_memory_order(order: Seq<u32>, info: Map<u32, ProcInfo>) -> bool {
    &&& order.no_duplicates()
    &&& forall|pid: u32| #[trigger] order.contains(pid) <==> is_agent::<HermesCommand>(info, pid)
    &&& forall|i: int, j: int|
        0 <= i < j < order.len() ==> memory_kb(info, #[trigger] order[i]) >= memory_kb(
            info,
            #[trigger] order[j],
        )
}

/// What a session that is paired with a process is doing.
pub open spec fn hermes_status(
    row: RowView,
    pid: u32,
    shared: SharedProcessData,
    now_ms: u64,
) -> SessionStatus {
    let info = shared.process_info@;
    if idle_secs(row, now_ms) < ACTIVITY_FRESH_SECS {
        SessionStatus::Thinking
    } else if (info.contains_key(pid) && info[pid].cpu_millis > BUSY_LOAD) || active_below(
        pid,
        shared.children_map@,
        info,
        ACTIVE_LOAD,
    ) {
        SessionStatus::Executing
    } else {
        SessionStatus::Waiting
    }
}

/// How many seconds ago a session was active, or 0 where it was later.
pub open spec fn idle_secs(row: RowView, now_ms: u64) -> int {
    if now_ms >= row.last_active_ms {
        (now_ms - row.last_active_ms) / 1000
    } else {
        0
    }
}

/// The text, or the other where it is empty.
pub open spec fn or_else(text: Seq<char>, other: Seq<char>) -> Seq<char> {
    if text.len() > 0 {
        text
    } else {
        other
    }
}

/// What is shown of a session beside what its row says.
#[verifier::ext_equal]
pub struct HermesReport {
    pub pid: u32,
    pub cwd: Seq<char>,
    pub project_name: Seq<char>,
    pub status: SessionStatus,
    pub current_tasks: Seq<Seq<char>>,
    pub mem_mb: u64,
    pub children: Seq<crate::model::ChildView>,
    pub config_root: Seq<char>,
}

/// What is shown of a session.
pub open spec fn hermes_session(row: RowView, rest: HermesReport) -> SessionView {
    SessionView {
        agent_cli: "hermes"@,
        pid: rest.pid,
        session_id: row.id,
        cwd: rest.cwd,
        project_name: rest.project_name,
        started_at: row.started_at_ms,
        status: rest.status,
        model: or_else(row.model, "-"@),
        effort: Seq::empty(),
        context_percent: ContextPercent::NotKnown,
        total_input_tokens: row.input_tokens,
        total_output_tokens: row.output_tokens,
        total_cache_read: row.cache_read,
        total_cache_create: row.cache_write,
        turn_count: (row.message_count % 0x1_0000_0000) as u32,
        current_tasks: rest.current_tasks,
        mem_mb: rest.mem_mb,
        version: Seq::empty(),
        git_branch: Seq::empty(),
        git_added: 0,
        git_modified: 0,
        token_history: Seq::empty(),
        context_history: Seq::empty(),
        compaction_count: 0,
        context_window: 0,
        subagents: Seq::empty(),
        mem_file_count: 0,
        mem_line_count: 0,
        children: rest.children,
        initial_prompt: or_else(row.title, row.preview),
        first_assistant_text: Seq::empty(),
        chat_messages: Seq::empty(),
        tool_calls: Seq::empty(),
        pending_since_ms: 0,
        thinking_since_ms: 0,
        file_accesses: Seq::empty(),
        config_root: rest.config_root,
    }
}

/// The working directory of a process, or nothing where it is not known.
pub open spec fn cwd_of(cwds: Map<u32, String>, pid: u32) -> Seq<char> {
    if cwds.contains_key(pid) {
        cwds[pid]@
    } else {
        Seq::empty()
    }
}

/// What is shown of a session that is paired with a process.
pub open spec fn paired_session(
    row: RowView,
    pid: u32,
    cwds: Map<u32, String>,
    shared: SharedProcessData,
    now_ms: u64,
    config_root: Seq<char>,
) -> SessionView {
    let status = hermes_status(row, pid, shared, now_ms);
    let cwd = cwd_of(cwds, pid);
    hermes_session(
        row,
        HermesReport {
            pid,
            cwd,
            project_name: if cwd.len() > 0 {
                base_name(cwd)
            } else {
                or_else(row.title, "?"@)
            },
            status,
            current_tasks: match status {
                SessionStatus::Waiting => seq!["waiting for input"@],
                SessionStatus::Executing => seq!["running tool…"@],
                _ => seq!["thinking…"@],
            },
            mem_mb: memory_mb(shared.process_info@, pid),
            children: children_view(pid, shared),
            config_root,
        },
    )
}

/// What is shown of a session that is paired with no process.
pub open spec fn unknown_session(row: RowView, config_root: Seq<char>) -> SessionView {
    hermes_session(
        row,
        HermesReport {
            pid: 0,
            cwd: Seq::empty(),
            project_name: or_else(row.title, "hermes"@),
            status: SessionStatus::Unknown,
            current_tasks: Seq::empty(),
            mem_mb: 0,
            children: Seq::empty(),
            config_root,
        },
    )
}

/// What is shown of the first `n` sessions: each is paired with the process at
/// its place in the order; those for which none is left are shown while they
/// were active a short while ago.
pub open spec fn reported(
    rows: Seq<RowView>,
    order: Seq<u32>,
    cwds: Map<u32, String>,
    shared: SharedProcessData,
    now_ms: u64,
    config_root: Seq<char>,
    n: nat,
) -> Seq<SessionView>
    decreases n,
{
    if n == 0 {
        Seq::empty()
    } else {
        let i = n - 1;
        let rest = reported(rows, order, cwds, shared, now_ms, config_root, i as nat);
        if i < order.len() {
            rest.push(paired_session(rows[i], order[i], cwds, shared, now_ms, config_root))
        } else if idle_secs(rows[i], now_ms) < NO_PID_RECENCY_WINDOW_SECS {
            rest.push(unknown_session(rows[i], config_root))
        } else {
            rest
        }
    }
}

/// Whether `r` reports the sessions, the newest first.
pub open spec fn is_report(
    r: Seq<AgentSession>,
    rows: Seq<RowView>,
    order: Seq<u32>,
    cwds: Map<u32, String>,
    shared: SharedProcessData,
    now_ms: u64,
    config_root: Seq<char>,
) -> bool {
    exists|found: Seq<AgentSession>| #[trigger]
        is_stable_sorting(found, r) && session_views(found) == reported(
            rows,
            order,
            cwds,
            shared,
            now_ms,
            config_root,
            rows.len(),
        )
}

/// What is known of the database.
#[derive(Clone, Copy, PartialEq, Eq, Structural, Debug)]
pub struct DbState {
    /// Whether it is a symbolic link, or that cannot be told.
    pub is_symlink: bool,
    pub exists: bool,
    /// Whether there is a program to query it.
    pub can_query: bool,
}

/// Whether the database is read: it is there, it is no symbolic link, and
/// there is a program to query it.
pub open spec fn is_readable(db: DbState) -> bool {
    !db.is_symlink && db.exists && db.can_query
}

/// Where Hermes keeps its files.
#[derive(Clone, Copy, PartialEq, Eq, Structural, Debug)]
pub enum HermesHome {
    /// Where the environment says.
    Named,
    /// In the directory for local application data.
    LocalAppData,
    /// In the home directory, under `.hermes`.
    DotHermes,
}

/// Where Hermes keeps its files: in the directory that the environment names,
/// where it names one; else in that for local application data, where there is
/// one; else in the home directory.
pub fn hermes_home(named: bool, local_is_dir: bool) -> (r: HermesHome)
    ensures
        r == if named {
            HermesHome::Named
        } else if local_is_dir {
            HermesHome::LocalAppData
        } else {
            HermesHome::DotHermes
        },
{
    if named {
        HermesHome::Named
    } else if local_is_dir {
        HermesHome::LocalAppData
    } else {
        HermesHome::DotHermes
    }
}

/// The number modulo two to the 32nd.
fn low_word(n: u64) -> (r: u32)
    ensures
        r == n % 0x1_0000_0000,
{
    assert((n as u32) as u64 == n % 0x1_0000_0000u64) by (bit_vector);
    #[verifier::truncate]
    (n as u32)
}

/// How many seconds ago a session was active.
fn idle_seconds(ds: &DbSession, now_ms: u64) -> (r: u64)
    ensures
        r == idle_secs(ds@, now_ms),
{
    if now_ms >= ds.last_active_ms {
        (now_ms - ds.last_active_ms) / 1000
    } else {
        0
    }
}

/// The text, or the other where it is empty.
fn text_or(text: &str, other: &str) -> (r: String)
    ensures
        r@ == or_else(text@, other@),
{
    if !text.is_empty() {
        text.to_owned()
    } else {
        other.to_owned()
    }
}

/// Collects the sessions of Hermes.
pub struct HermesCollector {
    /// The directory of its files, as it is shown.
    pub home_dir: String,
    /// The rows of the last query.
    pub cached_db_sessions: Vec<DbSession>,
}

impl HermesCollector {
    /// A collector that knows of no session yet.
    pub fn new(home_dir: String) -> (r: HermesCollector)
        ensures
            r.home_dir@ == home_dir@,
            row_views(r.cached_db_sessions@) == Seq::<RowView>::empty(),
    {
        let r = HermesCollector { home_dir, cached_db_sessions: Vec::new() };
        assert(row_views(r.cached_db_sessions@) =~= Seq::<RowView>::empty());
        r
    }

    /// The processes of Hermes.
    pub fn find_hermes_pids(process_info: &HashMap<u32, ProcInfo>) -> (r: Vec<u32>)
        ensures
            r@.no_duplicates(),
            forall|pid: u32| #[trigger]
                r@.contains(pid) <==> is_agent::<HermesCommand>(process_info@, pid),
    {
        agent_pids::<HermesCommand>(process_info)
    }

    /// What a session that is paired with a process is doing.
    fn status_of(ds: &DbSession, pid: u32, shared: &SharedProcessData, now_ms: u64) -> (r:
        SessionStatus)
        ensures
            r == hermes_status(ds@, pid, *shared, now_ms),
    {
        if idle_seconds(ds, now_ms) < ACTIVITY_FRESH_SECS {
            return SessionStatus::Thinking;
        }
        let busy = match shared.process_info.get(&pid) {
            Some(p) => p.cpu_millis > BUSY_LOAD,
            None => false,
        };
        if busy || has_active_descendant(
            pid,
            &shared.children_map,
            &shared.process_info,
            ACTIVE_LOAD,
        ) {
            SessionStatus::Executing
        } else {
            SessionStatus::Waiting
        }
    }

    /// What is shown of a session that is paired with a process.
    pub fn build_session(
        &self,
        ds: &DbSession,
        pid: u32,
        cwds: &HashMap<u32, String>,
        shared: &SharedProcessData,
        now_ms: u64,
    ) -> (r: AgentSession)
        ensures
            r@ == paired_session(ds@, pid, cwds@, *shared, now_ms, self.home_dir@),
    {
        let cwd = match cwds.get(&pid) {
            Some(c) => c.clone(),
            None => String::new(),
        };
        let status = HermesCollector::status_of(ds, pid, shared, now_ms);
        let project_name = if !cwd.as_str().is_empty() {
            string_of(base_name_of(chars_of(cwd.as_str()).as_slice()).as_slice())
        } else {
            text_or(ds.title.as_str(), "?")
        };
        let current_tasks = match status {
            SessionStatus::Waiting => one_task("waiting for input"),
            SessionStatus::Executing => one_task("running tool…"),
            _ => one_task("thinking…"),
        };
        let s = AgentSession {
            agent_cli: "hermes",
            pid,
            session_id: ds.id.clone(),
            cwd,
            project_name,
            started_at: ds.started_at_ms,
            status,
            model: text_or(ds.model.as_str(), "-"),
            effort: String::new(),
            context_percent: ContextPercent::NotKnown,
            total_input_tokens: ds.input_tokens,
            total_output_tokens: ds.output_tokens,
            total_cache_read: ds.cache_read,
            total_cache_create: ds.cache_write,
            turn_count: low_word(ds.message_count),
            current_tasks,
            mem_mb: memory_mb_of(&shared.process_info, pid),
            version: String::new(),
            git_branch: String::new(),
            git_added: 0,
            git_modified: 0,
            token_history: Vec::new(),
            context_history: Vec::new(),
            compaction_count: 0,
            context_window: 0,
            subagents: Vec::new(),
            mem_file_count: 0,
            mem_line_count: 0,
            children: collect_children(pid, shared),
            initial_prompt: text_or(ds.title.as_str(), ds.preview.as_str()),
            first_assistant_text: String::new(),
            chat_messages: Vec::new(),
            tool_calls: Vec::new(),
            pending_since_ms: 0,
            thinking_since_ms: 0,
            file_accesses: Vec::new(),
            config_root: self.home_dir.clone(),
        };
        assert(s@ =~= paired_session(ds@, pid, cwds@, *shared, now_ms, self.home_dir@));
        s
    }

    /// What is shown of a session that is paired with no process.
    pub fn build_unknown_session(&self, ds: &DbSession) -> (r: AgentSession)
        ensures
            r@ == unknown_session(ds@, self.home_dir@),
    {
        let s = AgentSession {
            agent_cli: "hermes",
            pid: 0,
            session_id: ds.id.clone(),
            cwd: String::new(),
            project_name: text_or(ds.title.as_str(), "hermes"),
            started_at: ds.started_at_ms,
            status: SessionStatus::Unknown,
            model: text_or(ds.model.as_str(), "-"),
            effort: String::new(),
            context_percent: ContextPercent::NotKnown,
            total_input_tokens: ds.input_tokens,
            total_output_tokens: ds.output_tokens,
            total_cache_read: ds.cache_read,
            total_cache_create: ds.cache_write,
            turn_count: low_word(ds.message_count),
            current_tasks: Vec::new(),
            mem_mb: 0,
            version: String::new(),
            git_branch: String::new(),
            git_added: 0,
            git_modified: 0,
            token_history: Vec::new(),
            context_history: Vec::new(),
            compaction_count: 0,
            context_window: 0,
            subagents: Vec::new(),
            mem_file_count: 0,
            mem_line_count: 0,
            children: Vec::new(),
            initial_prompt: text_or(ds.title.as_str(), ds.preview.as_str()),
            first_assistant_text: String::new(),
            chat_messages: Vec::new(),
            tool_calls: Vec::new(),
            pending_since_ms: 0,
            thinking_since_ms: 0,
            file_accesses: Vec::new(),
            config_root: self.home_dir.clone(),
        };
        assert(s@ =~= unknown_session(ds@, self.home_dir@));
        s
    }

    /// The processes of Hermes, the largest first.
    pub fn pids_by_memory(process_info: &HashMap<u32, ProcInfo>) -> (r: Vec<u32>)
        ensures
            is_memory_order(r@, process_info@),
    {
        let pids = HermesCollector::find_hermes_pids(process_info);
        let ghost info = process_info@;
        let mut sized: Vec<SizedProcess> = Vec::new();
        let mut i: usize = 0;
        while i < pids.len()
            invariant
                i <= pids@.len(),
                info == process_info@,
                sized@.len() == i,
                forall|k: int|
                    0 <= k < i ==> (#[trigger] sized@[k]).pid == pids@[k] && sized@[k].rss_kb
                        == memory_kb(info, pids@[k]),
            decreases pids@.len() - i,
        {
            let rss_kb: u64 = match process_info.get(&pids[i]) {
                Some(p) => p.rss_kb,
                None => 0,
            };
            sized.push(SizedProcess { pid: pids[i], rss_kb });
            i += 1;
        }
        let ghost unsorted = sized@;
        let sorted = sort_descending(sized);
        let mut out: Vec<u32> = Vec::new();
        let mut j: usize = 0;
        while j < sorted.len()
            invariant
                j <= sorted@.len(),
                out@.len() == j,
                forall|k: int| 0 <= k < j ==> #[trigger] out@[k] == sorted@[k].pid,
            decreases sorted@.len() - j,
        {
            out.push(sorted[j].pid);
            j += 1;
        }
        proof {
            lemma_memory_order(pids@, unsorted, sorted@, out@, info);
        }
        out
    }

    /// What is shown of the sessions, each paired with the process at its
    /// place in the order.
    pub fn pair_sessions(
        &self,
        order: &Vec<u32>,
        cwds: &HashMap<u32, String>,
        shared: &SharedProcessData,
        now_ms: u64,
    ) -> (r: Vec<AgentSession>)
        ensures
            session_views(r@) == reported(
                row_views(self.cached_db_sessions@),
                order@,
                cwds@,
                *shared,
                now_ms,
                self.home_dir@,
                self.cached_db_sessions@.len(),
            ),
    {
        let ghost rows = row_views(self.cached_db_sessions@);
        let mut out: Vec<AgentSession> = Vec::new();
        let mut i: usize = 0;
        assert(session_views(out@) =~= Seq::empty());
        while i < self.cached_db_sessions.len()
            invariant
                i <= self.cached_db_sessions@.len(),
                rows == row_views(self.cached_db_sessions@),
                session_views(out@) == reported(
                    rows,
                    order@,
                    cwds@,
                    *shared,
                    now_ms,
                    self.home_dir@,
                    i as nat,
                ),
            decreases self.cached_db_sessions@.len() - i,
        {
            let ds = &self.cached_db_sessions[i];
            let ghost before = session_views(out@);
            assert(rows[i as int] == ds@);
            if i < order.len() {
                let s = self.build_session(ds, order[i], cwds, shared, now_ms);
                out.push(s);
                assert(session_views(out@) =~= before.push(s@));
            } else if idle_seconds(ds, now_ms) < NO_PID_RECENCY_WINDOW_SECS {
                let s = self.build_unknown_session(ds);
                out.push(s);
                assert(session_views(out@) =~= before.push(s@));
            }
            i += 1;
        }
        out
    }

    /// The report of the sessions, the newest first. `rows` are what a query
    /// gave, where one was made and answered; they count only at a moment for
    /// costly queries. A database that is not to be read has no sessions.
    pub fn collect_sessions(
        &mut self,
        db: DbState,
        rows: Option<Vec<DbSession>>,
        cwds: &HashMap<u32, String>,
        shared: &SharedProcessData,
        now_ms: u64,
    ) -> (r: Vec<AgentSession>)
        ensures
            final(self).home_dir@ == old(self).home_dir@,
            row_views(final(self).cached_db_sessions@) == if !is_readable(db) {
                Seq::empty()
            } else if shared.slow_tick && rows is Some {
                row_views(rows->0@)
            } else {
                row_views(old(self).cached_db_sessions@)
            },
            !is_readable(db) ==> r@ == Seq::<AgentSession>::empty(),
            is_readable(db) ==> exists|order: Seq<u32>| #[trigger]
                is_memory_order(order, shared.process_info@) && is_report(
                    r@,
                    row_views(final(self).cached_db_sessions@),
                    order,
                    cwds@,
                    *shared,
                    now_ms,
                    old(self).home_dir@,
                ),
    {
        if db.is_symlink || !db.exists || !db.can_query {
            self.cached_db_sessions = Vec::new();
            assert(row_views(self.cached_db_sessions@) =~= Seq::empty());
            return Vec::new();
        }
        if shared.slow_tick {
            if let Some(fresh) = rows {
                self.cached_db_sessions = fresh;
            }
        }
        let order = HermesCollector::pids_by_memory(&shared.process_info);
        let found = self.pair_sessions(&order, cwds, shared, now_ms);
        let ghost unsorted = found@;
        let r = sort_descending(found);
        assert(is_memory_order(order@, shared.process_info@));
        assert(row_views(self.cached_db_sessions@).len() == self.cached_db_sessions@.len());
        assert(is_stable_sorting(unsorted, r@));
        r
    }
}

proof fn lemma_memory_order(
    pids: Seq<u32>,
    sized: Seq<SizedProcess>,
    sorted: Seq<SizedProcess>,
    order: Seq<u32>,
    info: Map<u32, ProcInfo>,
)
    requires
        pids.no_duplicates(),
        forall|pid: u32| #[trigger] pids.contains(pid) <==> is_agent::<HermesCommand>(info, pid),
        sized.len() == pids.len(),
        forall|k: int|
            0 <= k < sized.len() ==> (#[trigger] sized[k]).pid == pids[k] && sized[k].rss_kb
                == memory_kb(info, pids[k]),
        is_stable_sorting(sized, sorted),
        order.len() == sorted.len(),
        forall|k: int| 0 <= k < order.len() ==> #[trigger] order[k] == sorted[k].pid,
    ensures
        is_memory_order(order, info),
{
    broadcast use vstd::seq_lib::group_to_multiset_ensures;

    law_sorting_keeps_entries(sized, sorted);
    assert forall|i: int, j: int| 0 <= i < j < sized.len() implies sized[i] != sized[j] by {
        assert(sized[i].pid == pids[i] && sized[j].pid == pids[j]);
    }
    assert(sized.no_duplicates());
    sized.lemma_multiset_has_no_duplicates();
    sorted.lemma_multiset_has_no_duplicates_conv();
    assert forall|k: int| 0 <= k < sorted.len() implies sized.contains(#[trigger] sorted[k]) by {
        assert(sorted.contains(sorted[k]));
        assert(sorted.to_multiset().count(sorted[k]) > 0);
    }
    assert forall|k: int| 0 <= k < sorted.len() implies (#[trigger] sorted[k]).rss_kb == memory_kb(
        info,
        sorted[k].pid,
    ) && pids.contains(sorted[k].pid) by {
        assert(sized.contains(sorted[k]));
        let m = choose|m: int| 0 <= m < sized.len() && sized[m] == sorted[k];
        assert(sized[m].pid == pids[m]);
    }
    assert forall|i: int, j: int| 0 <= i < order.len() && 0 <= j < order.len() && i
        != j implies order[i] != order[j] by {
        assert(sorted[i] != sorted[j]);
        assert(order[i] == sorted[i].pid && order[j] == sorted[j].pid);
    }
    assert forall|pid: u32| #[trigger] order.contains(pid) <==> is_agent::<HermesCommand>(
        info,
        pid,
    ) by {
        if order.contains(pid) {
            let k = choose|k: int| 0 <= k < order.len() && order[k] == pid;
            assert(pids.contains(sorted[k].pid));
        }
        if pids.contains(pid) {
            let m = choose|m: int| 0 <= m < pids.len() && pids[m] == pid;
            assert(sized.contains(sized[m]));
            assert(sized.to_multiset().count(sized[m]) > 0);
            assert(sorted.contains(sized[m]));
            let k = choose|k: int| 0 <= k < sorted.len() && sorted[k] == sized[m];
            assert(order[k] == pid);
        }
    }
    assert forall|i: int, j: int| 0 <= i < j < order.len() implies memory_kb(
        info,
        #[trigger] order[i],
    ) >= memory_kb(info, #[trigger] order[j]) by {
        assert(sorted[i].rank() >= sorted[j].rank());
    }
}

proof fn lemma_reported(
    rows: Seq<RowView>,
    order: Seq<u32>,
    cwds: Map<u32, String>,
    shared: SharedProcessData,
    now_ms: u64,
    config_root: Seq<char>,
    n: nat,
)
    requires
        n <= rows.len(),
    ensures
        ({
            let all = reported(rows, order, cwds, shared, now_ms, config_root, n);
            &&& n <= order.len() ==> all.len() == n
            &&& n >= order.len() ==> all.len() >= order.len()
            &&& forall|i: int|
                0 <= i < all.len() && i < order.len() ==> (#[trigger] all[i]).pid == order[i]
                    && all[i].status != SessionStatus::Unknown
            &&& forall|i: int|
                order.len() <= i < all.len() ==> (#[trigger] all[i]).status
                    == SessionStatus::Unknown && all[i].pid == 0
        }),
    decreases n,
{
    if n > 0 {
        let m = (n - 1) as nat;
        lemma_reported(rows, order, cwds, shared, now_ms, config_root, m);
        let rest = reported(rows, order, cwds, shared, now_ms, config_root, m);
        let all = reported(rows, order, cwds, shared, now_ms, config_root, n);
        assert forall|i: int| 0 <= i < all.len() && i < order.len() implies (
        #[trigger] all[i]).pid == order[i] && all[i].status != SessionStatus::Unknown by {
            if i < rest.len() {
                assert(all[i] == rest[i]);
            }
        }
        assert forall|i: int| order.len() <= i < all.len() implies (#[trigger] all[i]).status
            == SessionStatus::Unknown && all[i].pid == 0 by {
            if i < rest.len() {
                assert(all[i] == rest[i]);
            }
        }
    }
}

/// No process is paired with two sessions; a session without a process is of
/// unknown status, and one with a process is not.
pub proof fn law_process_is_paired_once(
    rows: Seq<RowView>,
    order: Seq<u32>,
    cwds: Map<u32, String>,
    shared: SharedProcessData,
    now_ms: u64,
    config_root: Seq<char>,
    i: int,
    j: int,
)
    requires
        order.no_duplicates(),
        ({
            let all = reported(rows, order, cwds, shared, now_ms, config_root, rows.len());
            &&& 0 <= i < all.len()
            &&& 0 <= j < all.len()
            &&& all[i].status != SessionStatus::Unknown
            &&& all[j].status != SessionStatus::Unknown
            &&& all[i].pid == all[j].pid
        }),
    ensures
        i == j,
{
    lemma_reported(rows, order, cwds, shared, now_ms, config_root, rows.len());
}

/// A session is shown without a process only while it was active a short while
/// ago: what ended without saying so is hidden.
pub proof fn law_ghosts_are_hidden(
    rows: Seq<RowView>,
    order: Seq<u32>,
    cwds: Map<u32, String>,
    shared: SharedProcessData,
    now_ms: u64,
    config_root: Seq<char>,
    n: nat,
    a: int,
)
    requires
        n <= rows.len(),
        ({
            let all = reported(rows, order, cwds, shared, now_ms, config_root, n);
            0 <= a < all.len() && all[a].status == SessionStatus::Unknown
        }),
    ensures
        exists|k: int|
            order.len() <= k < n && idle_secs(#[trigger] rows[k], now_ms)
                < NO_PID_RECENCY_WINDOW_SECS && reported(
                rows,
                order,
                cwds,
                shared,
                now_ms,
                config_root,
                n,
            )[a] == unknown_session(rows[k], config_root),
    decreases n,
{
    let m = (n - 1) as nat;
    let rest = reported(rows, order, cwds, shared, now_ms, config_root, m);
    let all = reported(rows, order, cwds, shared, now_ms, config_root, n);
    if a < rest.len() {
        assert(all[a] == rest[a]);
        law_ghosts_are_hidden(rows, order, cwds, shared, now_ms, config_root, m, a);
    } else {
        assert(all[a] == unknown_session(rows[m as int], config_root));
    }
}

} // verus!
