use abtop::hermes::hermes_home;
use abtop::hermes::query_sessions;
use abtop::hermes::DbSession;
use abtop::hermes::DbState;
use abtop::hermes::HermesCollector;
use abtop::hermes::HermesHome;
use abtop::hermes::SESSIONS_QUERY;
use abtop::model::SessionStatus;
use abtop::policy::Verbatim;
use abtop::process::ProcInfo;
use abtop::process::SharedProcessData;
use std::collections::HashMap;

const NOW: u64 = 1_781_486_000_000;

fn policy() -> Verbatim {
    Verbatim { max_chat_messages: 100, max_file_accesses: 100 }
}

fn mk(pid: u32, cmd: &str) -> ProcInfo {
    ProcInfo { pid, ppid: 1, rss_kb: 1000, cpu_millis: 0, command: cmd.to_string(), start_ticks: 0 }
}

fn no_processes() -> SharedProcessData {
    SharedProcessData {
        process_info: HashMap::new(),
        children_map: HashMap::new(),
        ports: HashMap::new(),
        slow_tick: true,
    }
}

fn open_db() -> DbState {
    DbState { is_symlink: false, exists: true, can_query: true }
}

/// The answer for one open session that started 1000 s ago and was active 10 s
/// ago.
fn answer() -> String {
    format!(
        r#"[{{"id":"sess_open","title":"Fix Docker build","model":"openai/gpt-5","source":"cli","started_at":{}.25,"message_count":5,"tool_call_count":0,"input_tokens":1000,"output_tokens":200,"cache_read_tokens":300,"cache_write_tokens":40,"reasoning_tokens":0,"last_active":{}.5,"preview":"please fix the dockerfile"}}]
"#,
        NOW / 1000 - 1000,
        NOW / 1000 - 10
    )
}

fn row(id: &str, last_active_ms: u64, started_at_ms: u64) -> DbSession {
    DbSession {
        id: id.to_string(),
        title: String::new(),
        model: String::new(),
        source: "cli".to_string(),
        started_at_ms,
        last_active_ms,
        message_count: 4294967299,
        tool_call_count: 0,
        input_tokens: 1,
        output_tokens: 2,
        cache_read: 3,
        cache_write: 4,
        reasoning_tokens: 0,
        preview: "hello".to_string(),
    }
}

#[test]
fn find_hermes_pids_matches_shim_and_wrapper_excludes_gateway() {
    let mut info = HashMap::new();
    info.insert(100, mk(100, "/home/u/.local/bin/hermes"));
    info.insert(200, mk(200, "python -m hermes"));
    info.insert(300, mk(300, "hermes gateway run"));
    info.insert(400, mk(400, "grep hermes"));
    info.insert(500, mk(500, "/usr/bin/opencode"));

    let pids = HermesCollector::find_hermes_pids(&info);
    assert!(pids.contains(&100));
    assert!(pids.contains(&200));
    assert!(!pids.contains(&300), "gateway daemon must be excluded");
    assert!(!pids.contains(&400), "grep must be excluded");
    assert!(!pids.contains(&500));
    assert_eq!(pids.len(), 2);
}

#[test]
fn this_program_and_mere_mentions_are_no_hermes() {
    let mut info = HashMap::new();
    info.insert(1, mk(1, "abtop --watch /hermes"));
    info.insert(2, mk(2, "python /opt/hermes-agent/run.py"));
    info.insert(3, mk(3, "node hermesish"));
    assert_eq!(HermesCollector::find_hermes_pids(&info), vec![2]);
}

#[test]
fn hermes_home_defaults_to_dotdir() {
    assert_eq!(hermes_home(false, false), HermesHome::DotHermes);
    assert_eq!(hermes_home(true, true), HermesHome::Named);
    assert_eq!(hermes_home(false, true), HermesHome::LocalAppData);
}

#[test]
fn query_answer_is_read_with_its_telemetry() {
    assert!(SESSIONS_QUERY.contains("WHERE s.ended_at IS NULL\n  AND s.source = 'cli'"));
    assert!(SESSIONS_QUERY.ends_with("ORDER BY last_active DESC\nLIMIT 20;"));
    let rows = query_sessions(&policy(), &answer()).expect("query returned None");
    assert_eq!(rows.len(), 1);
    let r = &rows[0];
    assert_eq!(r.id, "sess_open");
    assert_eq!(r.model, "openai/gpt-5");
    assert_eq!(r.source, "cli");
    assert_eq!(r.input_tokens, 1000);
    assert_eq!(r.output_tokens, 200);
    assert_eq!(r.cache_read, 300);
    assert_eq!(r.cache_write, 40);
    assert_eq!(r.message_count, 5);
    assert_eq!(r.title, "Fix Docker build");
    assert!(r.preview.contains("dockerfile"));
    assert!(NOW.saturating_sub(r.last_active_ms) < 60_000);
    assert_eq!(r.started_at_ms, NOW - 1_000_000 + 250);
    assert_eq!(r.last_active_ms, NOW - 10_000 + 500);
}

#[test]
fn query_answers_that_are_no_rows() {
    assert!(query_sessions(&policy(), " \n").unwrap().is_empty());
    assert!(query_sessions(&policy(), "[]").unwrap().is_empty());
    assert!(query_sessions(&policy(), "{}").is_none());
    assert!(query_sessions(&policy(), "Error: no such table").is_none());
    let rows = query_sessions(&policy(), "[{\"started_at\":7.5}, 3]").unwrap();
    assert_eq!(rows.len(), 2);
    assert_eq!(rows[0].started_at_ms, 7500);
    assert_eq!(rows[0].last_active_ms, 7500);
    assert_eq!(rows[0].id, "");
    assert_eq!(rows[1].started_at_ms, 0);
}

#[test]
fn titles_and_previews_are_cut_at_whole_characters() {
    let text = format!("[{{\"title\":\"{}\",\"preview\":\"{}\"}}]", "é".repeat(300), "ab".repeat(150));
    let rows = query_sessions(&policy(), &text).unwrap();
    assert_eq!(rows[0].title, "é".repeat(256));
    assert_eq!(rows[0].preview, "ab".repeat(100));
    let odd = format!("[{{\"title\":\"x{}\"}}]", "é".repeat(300));
    assert_eq!(query_sessions(&policy(), &odd).unwrap()[0].title.len(), 511);
}

#[test]
fn collect_gates_on_live_pid_and_emits_unknown_fallback() {
    let mut c = HermesCollector::new("~/.hermes".to_string());
    let shared = no_processes();
    let rows = query_sessions(&policy(), &answer());
    let sessions = c.collect_sessions(open_db(), rows, &HashMap::new(), &shared, NOW);
    assert_eq!(sessions.len(), 1);
    assert_eq!(sessions[0].agent_cli, "hermes");
    assert_eq!(sessions[0].status, SessionStatus::Unknown);
    assert_eq!(sessions[0].total_input_tokens, 1000);
    assert_eq!(sessions[0].pid, 0);
    assert_eq!(sessions[0].project_name, "Fix Docker build");
    assert!(sessions[0].current_tasks.is_empty());
    assert_eq!(sessions[0].config_root, "~/.hermes");
}

#[test]
fn closed_database_shows_and_keeps_nothing() {
    for db in [
        DbState { is_symlink: true, exists: true, can_query: true },
        DbState { is_symlink: false, exists: false, can_query: true },
        DbState { is_symlink: false, exists: true, can_query: false },
    ] {
        let mut c = HermesCollector::new(String::new());
        c.cached_db_sessions = vec![row("a", NOW, NOW)];
        assert!(c.collect_sessions(db, None, &HashMap::new(), &no_processes(), NOW).is_empty());
        assert!(c.cached_db_sessions.is_empty());
    }
}

#[test]
fn rows_are_refreshed_at_slow_ticks_only() {
    let mut c = HermesCollector::new(String::new());
    let mut shared = no_processes();
    let none = HashMap::new();
    assert_eq!(c.collect_sessions(open_db(), Some(vec![row("a", NOW, NOW)]), &none, &shared, NOW).len(), 1);
    shared.slow_tick = false;
    let kept = c.collect_sessions(open_db(), Some(vec![]), &none, &shared, NOW);
    assert_eq!(kept[0].session_id, "a");
    shared.slow_tick = true;
    let kept = c.collect_sessions(open_db(), None, &none, &shared, NOW);
    assert_eq!(kept[0].session_id, "a");
    assert!(c.collect_sessions(open_db(), Some(vec![]), &none, &shared, NOW).is_empty());
}

#[test]
fn processes_are_paired_once_largest_first_and_ghosts_are_hidden() {
    let mut c = HermesCollector::new(String::new());
    let mut shared = no_processes();
    let mut big = mk(7, "hermes");
    big.rss_kb = 4096;
    big.cpu_millis = 1001;
    shared.process_info.insert(7, big);
    shared.process_info.insert(8, mk(8, "hermes"));
    let mut cwds = HashMap::new();
    cwds.insert(7, "/work/alpha".to_string());
    let rows = vec![
        row("first", NOW - 30_000, 1),
        row("second", NOW - 60_000, 3),
        row("third", NOW - 1_799_999, 2),
        row("ghost", NOW - 1_800_000, 9),
    ];
    let shown = c.collect_sessions(open_db(), Some(rows), &cwds, &shared, NOW);
    let got: Vec<(&str, u32, SessionStatus)> =
        shown.iter().map(|s| (s.session_id.as_str(), s.pid, s.status)).collect();
    assert_eq!(
        got,
        vec![
            ("second", 8, SessionStatus::Waiting),
            ("third", 0, SessionStatus::Unknown),
            ("first", 7, SessionStatus::Executing),
        ]
    );
    assert_eq!(shown[2].project_name, "alpha");
    assert_eq!(shown[2].mem_mb, 4);
    assert_eq!(shown[2].current_tasks, vec!["running tool…".to_string()]);
    assert_eq!(shown[0].project_name, "?");
    assert_eq!(shown[0].current_tasks, vec!["waiting for input".to_string()]);
    assert_eq!(shown[0].model, "-");
    assert_eq!(shown[0].initial_prompt, "hello");
    assert_eq!(shown[0].turn_count, 3);
    assert_eq!(shown[1].project_name, "hermes");
}

#[test]
fn recent_activity_is_thinking_even_when_the_clock_lags() {
    let c = HermesCollector::new(String::new());
    let shared = no_processes();
    let s = c.build_session(&row("a", NOW - 29_999, 0), 5, &HashMap::new(), &shared, NOW);
    assert_eq!(s.status, SessionStatus::Thinking);
    assert_eq!(s.current_tasks, vec!["thinking…".to_string()]);
    let s = c.build_session(&row("a", NOW + 5, 0), 5, &HashMap::new(), &shared, NOW);
    assert_eq!(s.status, SessionStatus::Thinking);
}
