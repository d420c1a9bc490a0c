//! What is reported of a session of Hermes.
use crate::hermes::HermesCommand;
use crate::hermes::RowView;
use crate::hermes::answer_sessions;
use crate::hermes::is_memory_order;
use crate::hermes::is_report;
use crate::hermes::paired_session;
use crate::hermes::reported;
use crate::hermes::row_session;
use crate::hermes::unknown_session;
use crate::json::JsonTree;
use crate::json::json_text;
use crate::laws::process::law_work_below_is_a_loaded_process_below;
use crate::laws::process::runs_below;
use crate::laws::text::has_part;
use crate::laws::text::law_containing_is_having_a_part;
use crate::model::AgentSession;
use crate::model::ContextPercent;
use crate::model::SessionStatus;
use crate::model::SessionView;
use crate::model::session_views;
use crate::number::thousandfold;
use crate::order::Ranked;
use crate::order::is_stable_sorting;
use crate::order::law_sorting_keeps_entries;
use crate::policy::HostPolicy;
use crate::process::CommandFilter;
use crate::process::ProcInfo;
use crate::process::SharedProcessData;
use crate::process::binary_name;
use crate::process::children_view;
use crate::process::is_agent;
use crate::report::memory_mb;
use crate::text::base_name;
use crate::text::clipped;
use crate::text::trim;
use crate::text::words;
use vstd::prelude::*;

verus! {

/// A paired session that was active within the last thirty seconds thinks. One
/// that was not is at work where its own process has a load over one percent,
/// or a process below it, at any distance, one over five percent; and it waits
/// where neither is so.
pub proof fn law_status_tells_what_runs(
    row: RowView,
    pid: u32,
    cwds: Map<u32, String>,
    shared: SharedProcessData,
    now_ms: u64,
    root: Seq<char>,
)
    ensures
        ({
            let info = shared.process_info@;
            let v = paired_session(row, pid, cwds, shared, now_ms, root);
            let recent = now_ms - row.last_active_ms < 30_000;
            let busy = info.contains_key(pid) && info[pid].cpu_millis > 1_000;
            let loaded = exists|k: u32|
                #![trigger info.contains_key(k)]
                info.contains_key(k) && info[k].cpu_millis > 5_000 && runs_below(
                    shared.children_map@,
                    pid,
                    k,
                );
            &&& v.status == SessionStatus::Thinking <==> recent
            &&& v.status == SessionStatus::Executing <==> !recent && (busy || loaded)
            &&& v.status == SessionStatus::Waiting <==> !recent && !busy && !loaded
            &&& v.status == SessionStatus::Thinking ==> v.current_tasks == seq!["thinking…"@]
            &&& v.status == SessionStatus::Executing ==> v.current_tasks == seq!["running tool…"@]
            &&& v.status == SessionStatus::Waiting ==> v.current_tasks == seq!["waiting for input"@]
        }),
{
    law_work_below_is_a_loaded_process_below(
        pid,
        shared.children_map@,
        shared.process_info@,
        5_000,
    );
}

/// The count that a row holds under `key`, or 0.
pub open spec fn count_under(row: JsonTree, key: Seq<char>) -> int {
    match row.get(key) {
        Some(JsonTree::Number(n)) => match n.unsigned {
            Some(c) => c as int,
            None => 0,
        },
        _ => 0,
    }
}

/// The text that a row holds under `key`, or nothing.
pub open spec fn text_under(row: JsonTree, key: Seq<char>) -> Seq<char> {
    match row.get(key) {
        Some(JsonTree::Text(s)) => s,
        _ => Seq::empty(),
    }
}

/// The bits of the number that a row holds under `key`.
pub open spec fn bits_under(row: JsonTree, key: Seq<char>) -> Option<u64> {
    match row.get(key) {
        Some(JsonTree::Number(n)) => Some(n.bits),
        _ => None,
    }
}

/// What the row of a session says is reported of it, paired or not: its tokens,
/// its model, when it started, and its title or else the beginning of its first
/// message, both without secrets.
pub proof fn law_row_is_reported<P: HostPolicy>(
    policy: P,
    row: JsonTree,
    pid: u32,
    cwds: Map<u32, String>,
    shared: SharedProcessData,
    now_ms: u64,
    root: Seq<char>,
)
    ensures
        ({
            let s = row_session(policy, row);
            let v = paired_session(s, pid, cwds, shared, now_ms, root);
            let u = unknown_session(s, root);
            &&& v.total_input_tokens == count_under(row, "input_tokens"@)
            &&& v.total_output_tokens == count_under(row, "output_tokens"@)
            &&& v.total_cache_read == count_under(row, "cache_read_tokens"@)
            &&& v.total_cache_create == count_under(row, "cache_write_tokens"@)
            &&& v.turn_count == count_under(row, "message_count"@) % 0x1_0000_0000
            &&& s.tool_call_count == count_under(row, "tool_call_count"@)
            &&& s.reasoning_tokens == count_under(row, "reasoning_tokens"@)
            &&& s.source == text_under(row, "source"@)
            &&& v.session_id == text_under(row, "id"@)
            &&& text_under(row, "model"@).len() > 0 ==> v.model == text_under(row, "model"@)
            &&& text_under(row, "model"@).len() == 0 ==> v.model == "-"@
            &&& bits_under(row, "started_at"@) is Some ==> v.started_at == thousandfold(
                bits_under(row, "started_at"@)->0,
            )
            &&& bits_under(row, "started_at"@) is None ==> v.started_at == 0
            &&& bits_under(row, "last_active"@) is Some ==> s.last_active_ms == thousandfold(
                bits_under(row, "last_active"@)->0,
            )
            &&& bits_under(row, "last_active"@) is None ==> s.last_active_ms == v.started_at
            &&& s.title == policy.redacted(clipped(text_under(row, "title"@), 512))
            &&& s.preview == policy.redacted(clipped(text_under(row, "preview"@), 200))
            &&& s.title.len() > 0 ==> v.initial_prompt == s.title
            &&& s.title.len() == 0 ==> v.initial_prompt == s.preview
            &&& u == (SessionView {
                pid: 0,
                cwd: Seq::empty(),
                project_name: u.project_name,
                status: SessionStatus::Unknown,
                current_tasks: Seq::empty(),
                mem_mb: 0,
                children: Seq::empty(),
                ..v
            })
            &&& s.title.len() > 0 ==> u.project_name == s.title
            &&& s.title.len() == 0 ==> u.project_name == "hermes"@
        }),
{
}

/// A paired session is reported with its process: its number, its directory,
/// its memory and the processes below it. The project is named after the
/// directory, or where that is not known after the title.
pub proof fn law_process_is_reported(
    row: RowView,
    pid: u32,
    cwds: Map<u32, String>,
    shared: SharedProcessData,
    now_ms: u64,
    root: Seq<char>,
)
    ensures
        ({
            let v = paired_session(row, pid, cwds, shared, now_ms, root);
            &&& v.agent_cli == "hermes"@
            &&& v.pid == pid
            &&& cwds.contains_key(pid) ==> v.cwd == cwds[pid]@
            &&& !cwds.contains_key(pid) ==> v.cwd.len() == 0
            &&& v.cwd.len() > 0 ==> v.project_name == base_name(v.cwd)
            &&& v.cwd.len() == 0 && row.title.len() > 0 ==> v.project_name == row.title
            &&& v.cwd.len() == 0 && row.title.len() == 0 ==> v.project_name == "?"@
            &&& v.mem_mb == memory_mb(shared.process_info@, pid)
            &&& v.children == children_view(pid, shared)
            &&& v.config_root == root
            &&& v.context_percent == ContextPercent::NotKnown && v.context_window == 0
            &&& v.effort.len() == 0 && v.version.len() == 0 && v.git_branch.len() == 0
            &&& v.git_added == 0 && v.git_modified == 0 && v.compaction_count == 0
            &&& v.token_history.len() == 0 && v.context_history.len() == 0
            &&& v.first_assistant_text.len() == 0 && v.chat_messages.len() == 0
            &&& v.tool_calls.len() == 0 && v.file_accesses.len() == 0
            &&& v.subagents.len() == 0 && v.mem_file_count == 0 && v.mem_line_count == 0
            &&& v.pending_since_ms == 0 && v.thinking_since_ms == 0
        }),
{
}

/// An answer that is a list has one session for each of its rows, in order; an
/// empty answer has none, and any other tells nothing.
pub proof fn law_answer_has_a_session_for_each_row<P: HostPolicy>(policy: P, answer: Seq<char>)
    ensures
        trim(answer).len() == 0 ==> answer_sessions(policy, answer) is Some && answer_sessions(
            policy,
            answer,
        )->0.len() == 0,
        trim(answer).len() > 0 ==> match json_text(trim(answer)) {
            Some(JsonTree::Array(rows)) => {
                &&& answer_sessions(policy, answer) is Some
                &&& answer_sessions(policy, answer)->0.len() == rows.len()
                &&& forall|i: int|
                    0 <= i < rows.len() ==> #[trigger] answer_sessions(policy, answer)->0[i]
                        == row_session(policy, rows[i])
            },
            _ => answer_sessions(policy, answer) is None,
        },
{
}

/// Whether a session without a process was active within the last half hour.
pub open spec fn lingers(row: RowView, now_ms: u64) -> bool {
    now_ms - row.last_active_ms < 1_800_000
}

/// Whether `view` shows one of the rows from `from` up to `to` that lingers,
/// without a process.
pub open spec fn shows_lingering(
    rows: Seq<RowView>,
    from: int,
    to: int,
    now_ms: u64,
    root: Seq<char>,
    view: SessionView,
) -> bool {
    exists|i: int|
        from <= i < to && #[trigger] lingers(rows[i], now_ms) && view == unknown_session(
            rows[i],
            root,
        )
}

/// The sessions are paired with the processes in order: the first row with the
/// first process, and so on. Those for which no process is left are reported
/// without one, where they were active within the last half hour.
pub proof fn law_sessions_are_paired_in_order(
    rows: Seq<RowView>,
    order: Seq<u32>,
    cwds: Map<u32, String>,
    shared: SharedProcessData,
    now_ms: u64,
    root: Seq<char>,
    n: nat,
)
    requires
        n <= rows.len(),
    ensures
        ({
            let r = reported(rows, order, cwds, shared, now_ms, root, n);
            &&& n <= order.len() ==> r.len() == n
            &&& order.len() <= n ==> order.len() <= r.len() <= n
            &&& forall|i: int|
                0 <= i < n && i < order.len() ==> #[trigger] r[i] == paired_session(
                    rows[i],
                    order[i],
                    cwds,
                    shared,
                    now_ms,
                    root,
                )
            &&& forall|i: int|
                order.len() <= i < n && #[trigger] lingers(rows[i], now_ms) ==> r.contains(
                    unknown_session(rows[i], root),
                )
            &&& forall|a: int|
                order.len() <= a < r.len() ==> shows_lingering(
                    rows,
                    order.len() as int,
                    n as int,
                    now_ms,
                    root,
                    #[trigger] r[a],
                )
        }),
    decreases n,
{
    if n > 0 {
        let m = (n - 1) as nat;
        law_sessions_are_paired_in_order(rows, order, cwds, shared, now_ms, root, m);
        let lo = order.len() as int;
        let rest = reported(rows, order, cwds, shared, now_ms, root, m);
        let r = reported(rows, order, cwds, shared, now_ms, root, n);
        assert forall|i: int| 0 <= i < n && i < order.len() implies #[trigger] r[i]
            == paired_session(rows[i], order[i], cwds, shared, now_ms, root) by {
            if i < m {
                assert(r[i] == rest[i]);
            }
        }
        assert forall|i: int|
            lo <= i < n && #[trigger] lingers(rows[i], now_ms) implies r.contains(
            unknown_session(rows[i], root),
        ) by {
            if i < m {
                let v = unknown_session(rows[i], root);
                assert(rest.contains(v));
                let a = choose|a: int| 0 <= a < rest.len() && rest[a] == v;
                assert(r[a] == v);
            } else {
                assert(r[r.len() - 1] == unknown_session(rows[i], root));
            }
        }
        assert forall|a: int| lo <= a < r.len() implies shows_lingering(
            rows,
            lo,
            n as int,
            now_ms,
            root,
            #[trigger] r[a],
        ) by {
            if a < rest.len() {
                assert(rest[a] == r[a]);
                assert(shows_lingering(rows, lo, m as int, now_ms, root, rest[a]));
                let i = choose|i: int|
                    lo <= i < m && #[trigger] lingers(rows[i], now_ms) && rest[a]
                        == unknown_session(rows[i], root);
                assert(lingers(rows[i], now_ms));
            } else {
                assert(lingers(rows[m as int], now_ms));
            }
        }
    }
}

/// The processes that sessions are paired with are those of Hermes, each once,
/// and none is larger than one before it.
pub proof fn law_larger_processes_come_first(
    order: Seq<u32>,
    info: Map<u32, ProcInfo>,
    i: int,
    j: int,
)
    requires
        is_memory_order(order, info),
        0 <= i < j < order.len(),
    ensures
        order[i] != order[j],
        info.contains_key(order[i]) && info.contains_key(order[j]),
        info[order[i]].rss_kb >= info[order[j]].rss_kb,
{
    assert(order.contains(order[i]) && order.contains(order[j]));
}

/// A command line is one of Hermes where its binary is `hermes`, or a word of it
/// is, or it holds `/hermes`; but not where it speaks of the gateway, searches
/// for something, or is one of this program.
pub proof fn law_hermes_is_told_by_its_name(cmd: Seq<char>)
    ensures
        HermesCommand::wants(cmd) <==> (binary_name(cmd) == "hermes"@ || words(cmd).contains(
            "hermes"@,
        ) || has_part(cmd, "/hermes"@)) && !has_part(cmd, "gateway"@) && !has_part(cmd, "grep"@)
            && !has_part(cmd, "abtop"@),
{
    law_containing_is_having_a_part(cmd, "/hermes"@);
    law_containing_is_having_a_part(cmd, "gateway"@);
    law_containing_is_having_a_part(cmd, "grep"@);
    law_containing_is_having_a_part(cmd, "abtop"@);
}

/// The processes of Hermes are those with such a command line.
pub proof fn law_hermes_processes(info: Map<u32, ProcInfo>, pid: u32)
    ensures
        is_agent::<HermesCommand>(info, pid) <==> info.contains_key(pid) && HermesCommand::wants(
            info[pid].command@,
        ),
{
}

/// A report of Hermes holds what is reported of its rows, each session as often
/// as it is, the newest first.
pub proof fn law_report_is_complete(
    r: Seq<AgentSession>,
    rows: Seq<RowView>,
    order: Seq<u32>,
    cwds: Map<u32, String>,
    shared: SharedProcessData,
    now_ms: u64,
    root: Seq<char>,
)
    requires
        is_report(r, rows, order, cwds, shared, now_ms, root),
    ensures
        r.len() == reported(rows, order, cwds, shared, now_ms, root, rows.len()).len(),
        forall|i: int, j: int|
            0 <= i < j < r.len() ==> (#[trigger] r[i]).started_at >= (#[trigger] r[j]).started_at,
        exists|found: Seq<AgentSession>|
            #![trigger session_views(found)]
            session_views(found) == reported(rows, order, cwds, shared, now_ms, root, rows.len())
                && found.to_multiset() == r.to_multiset(),
{
    let found = choose|found: Seq<AgentSession>| #[trigger]
        is_stable_sorting(found, r) && session_views(found) == reported(
            rows,
            order,
            cwds,
            shared,
            now_ms,
            root,
            rows.len(),
        );
    law_sorting_keeps_entries(found, r);
    assert(session_views(found).len() == found.len());
    assert forall|i: int, j: int| 0 <= i < j < r.len() implies (#[trigger] r[i]).started_at >= (
    #[trigger] r[j]).started_at by {
        assert(r[i].rank() >= r[j].rank());
    }
}

} // verus!
