use abtop::cache::LogFile;
use abtop::json::parse_json;
use abtop::json::Json;
use abtop::json::JsonNumber;
use abtop::kimi::collector::KimiCollector;
use abtop::kimi::collector::PlannedSession;
use abtop::kimi::config::kimi_config_root;
use abtop::kimi::config::read_kimi_model;
use abtop::kimi::config::ConfigRoot;
use abtop::kimi::config::RootFacts;
use abtop::kimi::index::ancestor_workdirs;
use abtop::kimi::index::current_session_ids;
use abtop::kimi::index::file_name_of;
use abtop::kimi::index::pid_of_workdir;
use abtop::kimi::index::read_server_lock_pid;
use abtop::kimi::index::read_session_index;
use abtop::kimi::index::read_state_title;
use abtop::kimi::index::IndexEntry;
use abtop::kimi::index::KnownSession;
use abtop::kimi::index::SessionDir;
use abtop::kimi::index::WorkDir;
use abtop::kimi::wire::handle_wire_event;
use abtop::kimi::wire::parse_wire;
use abtop::kimi::wire::time_to_systemtime;
use abtop::kimi::wire::wire_event_fits;
use abtop::activity::SessionDelta;
use abtop::model::AgentSession;
use abtop::model::ChatRole;
use abtop::model::ContextPercent;
use abtop::model::FileOp;
use abtop::model::SessionStatus;
use abtop::policy::Verbatim;
use abtop::process::ProcInfo;
use abtop::process::SharedProcessData;
use std::collections::HashMap;

const NOW: u64 = 1_781_486_000_000;

fn policy() -> Verbatim {
    Verbatim { max_chat_messages: 100, max_file_accesses: 100 }
}

fn parse(text: &str) -> SessionDelta {
    parse_wire(&policy(), text.len() as u64, text.as_bytes(), 0).unwrap()
}

fn proc_info(pid: u32, ppid: u32, command: &str) -> ProcInfo {
    ProcInfo { pid, ppid, rss_kb: 5000, cpu_millis: 0, command: command.to_string(), start_ticks: 0 }
}

fn no_processes() -> SharedProcessData {
    SharedProcessData {
        process_info: HashMap::new(),
        children_map: HashMap::new(),
        ports: HashMap::new(),
        slow_tick: true,
    }
}

fn session(id: &str, work_dir: &str, mtime_ms: u64, age: u64) -> KnownSession {
    KnownSession {
        entry: IndexEntry {
            session_id: id.to_string(),
            session_dir: format!("/s/{}", id),
            work_dir: work_dir.to_string(),
        },
        is_dir: true,
        wire_mtime_ms: Some(mtime_ms),
        wire_age_secs: age,
        log: None,
        title: String::new(),
    }
}

fn log(text: &str) -> Option<LogFile> {
    Some(LogFile { identity: (1, 2), len: text.len() as u64, start: 0, bytes: text.as_bytes().to_vec() })
}

fn root() -> RootFacts {
    RootFacts { is_dir: true, has_sessions: true, has_index: true }
}

fn ids(sessions: &Vec<AgentSession>) -> Vec<&str> {
    sessions.iter().map(|s| s.session_id.as_str()).collect()
}

#[test]
fn wire_parses_usage_record_into_tokens_and_derived_context() {
    let delta = parse(
        r#"{"type":"metadata","protocol_version":"1.10"}
{"type":"usage.record","model":"kimi-code/kimi-for-coding","usage":{"inputOther":3822,"output":858,"inputCacheRead":14336,"inputCacheCreation":0},"usageScope":"turn","time":1781485995669}
{"type":"usage.record","model":"kimi-code/kimi-for-coding","usage":{"inputOther":100,"output":10,"inputCacheRead":0,"inputCacheCreation":0},"usageScope":"turn","time":1781485996000}
"#,
    );
    assert!(delta.saw_usage);
    assert_eq!(delta.input, 3922);
    assert_eq!(delta.output, 868);
    assert_eq!(delta.cache_read, 14336);
    assert_eq!(delta.cache_create, 0);
    assert_eq!(delta.context_tokens, 100);
    assert_eq!(delta.model.as_deref(), Some("kimi-code/kimi-for-coding"));
    assert!(delta.last_activity.is_some());
    assert_eq!(delta.token_history.len(), 2);
    assert_eq!(delta.token_history, vec![3822 + 858 + 14336, 110]);
    assert_eq!(delta.last_activity, Some(1781485996000));
}

#[test]
fn wire_incremental_offset_only_parses_new_bytes() {
    let first = r#"{"type":"usage.record","model":"kimi-code/kimi-for-coding","usage":{"inputOther":10,"output":1,"inputCacheRead":0,"inputCacheCreation":0},"usageScope":"turn","time":1781485995000}
"#;
    let off = first.len() as u64;
    let d1 = parse(first);
    assert_eq!(d1.input, 10);
    assert_eq!(d1.new_offset, off);

    let second = r#"{"type":"usage.record","model":"kimi-code/kimi-for-coding","usage":{"inputOther":20,"output":2,"inputCacheRead":0,"inputCacheCreation":0},"usageScope":"turn","time":1781485996000}
"#;
    let d2 = parse_wire(&policy(), off + second.len() as u64, second.as_bytes(), off).unwrap();
    assert_eq!(d2.input, 20);
    assert_eq!(d2.context_tokens, 20);
    assert_eq!(d2.new_offset, off + second.len() as u64);
}

#[test]
fn wire_context_append_message_parses_chat_and_initial_prompt() {
    let d = parse(
        r#"{"type":"context.append_message","message":{"role":"user","content":[{"type":"text","text":"organize a git commit"}]}}
{"type":"context.append_message","message":{"role":"assistant","content":[{"type":"text","text":"done"}]}}
"#,
    );
    assert_eq!(d.turn_count, 1);
    assert_eq!(d.initial_prompt, "organize a git commit");
    assert!(!d.first_assistant_text.is_empty());
    assert_eq!(d.chat_messages.len(), 2);
    assert_eq!(d.chat_messages[0].role, ChatRole::User);
    assert_eq!(d.chat_messages[1].text, "done");
}

#[test]
fn wire_loop_event_tool_call_parses_tools_and_file_access() {
    let d = parse(
        r#"{"type":"context.append_loop_event","event":{"type":"tool.call","name":"Shell","args":{"command":"cd /x && git status"},"toolCallId":"t1"},"time":1781485995000}
{"type":"context.append_loop_event","event":{"type":"tool.call","name":"WriteFile","args":{"path":"/repo/src/main.rs"},"toolCallId":"t2"},"time":1781485996000}
"#,
    );
    assert_eq!(d.tool_calls.len(), 2);
    assert_eq!(d.tool_calls[0].name, "Shell");
    assert_eq!(d.current_task, "WriteFile src/main.rs");
    assert_eq!(d.file_accesses.len(), 1);
    assert_eq!(d.file_accesses[0].path, "/repo/src/main.rs");
    assert_eq!(d.file_accesses[0].operation, FileOp::Write);
}

#[test]
fn wire_streamed_part_and_prompt_fill_gaps() {
    let d = parse(
        r##"{"type":"turn.prompt","input":[{"type":"text","text":"# heading\nfix it"},{"type":"image"}]}
{"type":"turn.prompt","input":[{"type":"text","text":"later"}]}
{"type":"context.append_loop_event","event":{"type":"content.part","part":{"type":"think","text":"hm"}}}
{"type":"context.append_loop_event","event":{"type":"content.part","part":{"type":"text","text":"on it"}}}
{"type":"context.append_loop_event","event":{"type":"content.part","part":{"type":"text","text":"more"}}}
"##,
    );
    assert_eq!(d.initial_prompt, "fix it");
    assert_eq!(d.first_assistant_text, "on it");
    assert!(d.chat_messages.is_empty());
}

#[test]
fn wire_unfinished_and_broken_lines() {
    let whole = "{\"type\":\"turn.prompt\",\"input\":[]}\nnot json\n   \n";
    for unfinished in ["{", "{\"type\":\"usage.record\",\"usage\":{\"output\":7}}", "  "] {
        let d = parse(&format!("{}{}", whole, unfinished));
        assert_eq!(d.output, 0);
        assert_eq!(d.new_offset, whole.len() as u64);
    }
    let not_text = b"{}\n\xff\xff\n{}\n";
    let d = parse_wire(&policy(), not_text.len() as u64, not_text, 0).unwrap();
    assert_eq!(d.new_offset, 3);
}

#[test]
fn wire_line_is_read_whole_once_it_is_finished() {
    let before = "{\"type\":\"metadata\"}\n";
    let line = "{\"type\":\"usage.record\",\"usage\":{\"output\":7}}\n";
    for cut in 0..line.len() {
        let d = parse(&format!("{}{}", before, &line[..cut]));
        assert_eq!((d.output, d.new_offset), (0, before.len() as u64));
        let len = (before.len() + line.len()) as u64;
        let d = parse_wire(&policy(), len, line.as_bytes(), d.new_offset).unwrap();
        assert_eq!((d.output, d.new_offset), (7, len));
    }
}

#[test]
fn wire_thoughts_are_part_of_a_message() {
    let d = parse(
        r#"{"type":"context.append_message","message":{"role":"assistant","content":[{"type":"think","think":"plan"},{"type":"think","text":"more"},{"type":"text","text":"done"},{"type":"image","text":"no"}]}}
"#,
    );
    assert_eq!(d.chat_messages[0].text, "plan more done");
    assert_eq!(d.first_assistant_text, "plan more done");
}

#[test]
fn wire_shorter_log_reports_no_progress() {
    let d = parse_wire(&policy(), 5, b"", 10).unwrap();
    assert_eq!(d.new_offset, 0);
    let d = parse_wire(&policy(), 10, b"", 10).unwrap();
    assert_eq!(d.new_offset, 10);
    assert!(!d.saw_usage);
}

#[test]
fn wire_counts_that_do_not_fit_are_refused() {
    let big = "{\"type\":\"usage.record\",\"usage\":{\"output\":18446744073709551615}}\n";
    assert!(parse_wire(&policy(), big.len() as u64, big.as_bytes(), 0).is_some());
    let twice = format!("{}{}", big, big);
    assert!(parse_wire(&policy(), twice.len() as u64, twice.as_bytes(), 0).is_none());
    let event = parse_json(big.trim()).unwrap();
    let mut delta = SessionDelta::starting_at(0);
    assert!(wire_event_fits(&event, &delta));
    handle_wire_event(&policy(), &event, &mut delta);
    assert_eq!(delta.output, u64::MAX);
    assert!(!wire_event_fits(&event, &delta));
}

#[test]
fn state_title_parsed_from_new_schema() {
    assert_eq!(
        read_state_title(
            &policy(),
            r#"{"title":"组织一波 git 提交","isCustomTitle":false,"createdAt":"2026-06-24T01:59:44.115Z","updatedAt":"2026-06-24T02:00:38.951Z"}"#,
        )
        .as_deref(),
        Some("组织一波 git 提交")
    );
    assert_eq!(read_state_title(&policy(), r#"{"title":"  "}"#), None);
    assert_eq!(read_state_title(&policy(), "{}"), None);
    assert_eq!(read_state_title(&policy(), "not json"), None);
    let long = format!("{{\"title\":\"{}\"}}", "x".repeat(90));
    assert_eq!(read_state_title(&policy(), &long), Some(format!("{}…", "x".repeat(79))));
}

#[test]
fn config_root_prefers_kimi_code_over_legacy_kimi() {
    let indexed = RootFacts { is_dir: true, has_sessions: true, has_index: true };
    let plain = RootFacts { is_dir: true, has_sessions: true, has_index: false };
    let absent = RootFacts { is_dir: false, has_sessions: false, has_index: false };
    assert_eq!(kimi_config_root(false, indexed, plain), ConfigRoot::KimiCode);
    assert_eq!(kimi_config_root(false, plain, plain), ConfigRoot::KimiCode);
    assert_eq!(kimi_config_root(false, plain, indexed), ConfigRoot::Legacy);
    assert_eq!(kimi_config_root(false, absent, plain), ConfigRoot::Legacy);
    assert_eq!(kimi_config_root(false, absent, absent), ConfigRoot::KimiCode);
    assert_eq!(kimi_config_root(true, indexed, indexed), ConfigRoot::Named);
    assert_eq!(kimi_config_root(true, absent, absent), ConfigRoot::Named);
}

#[test]
fn current_session_ids_keeps_only_the_newest_per_live_workdir() {
    let wd = "project_a";
    let sessions: Vec<KnownSession> = ["s1", "s2", "s3"]
        .iter()
        .enumerate()
        .map(|(i, sid)| session(sid, wd, (1_700_000_000 + i as u64) * 1000, u64::MAX))
        .collect();

    let current = current_session_ids(&sessions, &vec![wd.to_string()]);
    assert_eq!(current.len(), 1);
    assert!(current.contains(&"s3".to_string()), "expected only s3, got {:?}", current);

    assert!(current_session_ids(&sessions, &vec!["project_other".to_string()]).is_empty());
}

#[test]
fn current_session_ids_first_wins_a_tie_and_empty_workdirs_never_count() {
    let sessions = vec![
        session("a", "wd", 5, 0),
        session("b", "wd", 5, 0),
        session("c", "", 9, 0),
        session("d", "other", 1, 0),
    ];
    let live = vec!["wd".to_string(), String::new(), "other".to_string()];
    assert_eq!(current_session_ids(&sessions, &live), vec!["a".to_string(), "d".to_string()]);
}

#[test]
fn session_index_parsed_into_entries() {
    let entries = read_session_index(
        Some(
            "{\"sessionId\":\"session_abc\",\"sessionDir\":\"/home/u/.kimi-code/sessions/wd_abtop_a3e08d75b3cc/session_abc\",\"workDir\":\"/home/u/abtop\"}\n\
             {\"sessionId\":\"session_def\",\"sessionDir\":\"/home/u/.kimi-code/sessions/wd_.kimi_9610029f55da/session_def\",\"workDir\":\"/home/u/.kimi\"}\n",
        ),
        &vec![],
    );
    assert_eq!(entries.len(), 2);
    assert_eq!(entries[0].session_id, "session_abc");
    assert_eq!(entries[0].work_dir, "/home/u/abtop");
    assert_eq!(entries[1].work_dir, "/home/u/.kimi");
}

#[test]
fn session_index_names_a_session_by_its_directory() {
    let entries = read_session_index(
        Some("\nbroken\n{\"workDir\":\"/w\"}\n{\"sessionDir\":\"/s/session_x/\"}\n"),
        &vec![],
    );
    assert_eq!(entries.len(), 1);
    assert_eq!(entries[0].session_id, "session_x");
    assert_eq!(entries[0].session_dir, "/s/session_x/");
    assert_eq!(entries[0].work_dir, "");
}

#[test]
fn session_dirs_are_scanned_where_the_index_names_none() {
    let dir = |name: &str, modified_ns: i128, is_dir: bool, is_symlink: bool| SessionDir {
        name: name.to_string(),
        path: format!("/s/{}", name),
        is_dir,
        is_symlink,
        modified_ns,
    };
    let work_dir = |name: &str, entries: Vec<SessionDir>| WorkDir { name: name.to_string(), entries };
    let listing = vec![
        work_dir(
            "wd_a",
            vec![
                dir("session_old", 1, true, false),
                dir("session_new", 7, true, false),
                dir("session_tie", 7, true, false),
                dir("session_file", 9, false, false),
                dir("session_link", 9, true, true),
                dir("backup", 9, true, false),
            ],
        ),
        work_dir("wd_b", vec![dir("session_link", 9, true, true)]),
        work_dir("wd_c", vec![dir("ses_ancient", -5, true, false)]),
        work_dir("other", vec![dir("session_other", 5, true, false)]),
    ];
    for index in [None, Some(""), Some("nothing\n"), Some("{\"workDir\":\"/w\"}\n")] {
        let entries = read_session_index(index, &listing);
        let found: Vec<&str> = entries.iter().map(|e| e.session_id.as_str()).collect();
        assert_eq!(found, vec!["session_new", "ses_ancient"]);
        assert_eq!(entries[0].session_dir, "/s/session_new");
        assert_eq!(entries[0].work_dir, "");
    }
    let entries = read_session_index(Some("{\"sessionDir\":\"/s/x\"}\n"), &listing);
    let found: Vec<&str> = entries.iter().map(|e| e.session_id.as_str()).collect();
    assert_eq!(found, vec!["x"]);
}

#[test]
fn file_names_of_paths() {
    for path in ["a", "a/", "/x/a", "./a/.", "a//", "..", "/", "", ".", "a/..", "a/b/."] {
        let expected = std::path::Path::new(path).file_name().map(|n| n.to_str().unwrap().to_string());
        assert_eq!(file_name_of(path), expected, "{}", path);
    }
}

#[test]
fn server_lock_pid_parsed() {
    assert_eq!(
        read_server_lock_pid(
            r#"{"pid":10452,"started_at":"2026-06-24T02:04:19.321Z","host":"127.0.0.1","port":58627}"#
        ),
        Some(10452)
    );
    assert_eq!(read_server_lock_pid(r#"{"pid":4294967296}"#), None);
    assert_eq!(read_server_lock_pid(r#"{"pid":-1}"#), None);
    assert_eq!(read_server_lock_pid("{}"), None);
    assert_eq!(read_server_lock_pid("pid"), None);
}

#[test]
fn time_to_systemtime_handles_ms_number_and_string() {
    let n = Json::Number(JsonNumber {
        unsigned: Some(1781485995669u64),
        bits: 1781485995669f64.to_bits(),
    });
    let s = Json::Text("1781485995669".to_string());
    assert!(time_to_systemtime(Some(&n)).is_some());
    assert_eq!(time_to_systemtime(Some(&n)), time_to_systemtime(Some(&s)));
    assert!(time_to_systemtime(Some(&Json::Text("not-a-number".to_string()))).is_none());
    assert_eq!(time_to_systemtime(Some(&n)), Some(1781485995669));
    assert_eq!(time_to_systemtime(parse_json("1781485995669").as_ref()), Some(1781485995669));
    assert_eq!(time_to_systemtime(parse_json("12.9").as_ref()), Some(12));
    assert_eq!(time_to_systemtime(parse_json("-3").as_ref()), Some(0));
    assert_eq!(time_to_systemtime(Some(&Json::Null)), None);
    assert_eq!(time_to_systemtime(None), None);
}

#[test]
fn model_name_is_resolved_from_the_configuration() {
    let config = "default_model = \"kimi/k2\"\n\n[models.\"other\"]\ndisplay_name = \"Other\"\n[models.\"kimi/k2\"]\n  display_name = \"\"\n  display_name=\"Kimi K2\"\n";
    assert_eq!(read_kimi_model(Some(config)), "Kimi K2");
    assert_eq!(read_kimi_model(Some("default_model=kimi\n[models.\"x\"]\ndisplay_name=\"X\"")), "kimi");
    assert_eq!(read_kimi_model(Some("default_model = \"\"\ndisplay_name = \"X\"")), "kimi-code");
    assert_eq!(read_kimi_model(None), "kimi-code");
}

#[test]
fn kimi_processes_are_told_by_their_binary() {
    let mut info = HashMap::new();
    info.insert(1, proc_info(1, 0, "/sbin/init"));
    info.insert(5, proc_info(5, 1, "/usr/bin/kimi-code --resume"));
    info.insert(6, proc_info(6, 1, "grep kimi-code"));
    info.insert(7, proc_info(7, 1, "abtop"));
    info.insert(8, proc_info(8, 7, "kimi-code"));
    assert_eq!(KimiCollector::find_kimi_pids(&info, 7), vec![5]);
}

#[test]
fn launch_directories_come_from_the_processes_above() {
    let mut info = HashMap::new();
    info.insert(2, proc_info(2, 1, "tmux"));
    info.insert(3, proc_info(3, 2, "bash"));
    info.insert(4, proc_info(4, 3, "kimi-code"));
    let mut cwds = HashMap::new();
    cwds.insert(2u32, "/".to_string());
    cwds.insert(3u32, "/repo".to_string());
    cwds.insert(4u32, "/home/u/.kimi-code".to_string());
    assert_eq!(ancestor_workdirs(4, &info, &cwds), vec!["/repo".to_string(), "/".to_string()]);
    assert_eq!(pid_of_workdir(&vec![9, 4], &info, &cwds, "/repo"), Some(4));
    assert_eq!(pid_of_workdir(&vec![9, 4], &info, &cwds, "/home/u/.kimi-code"), None);
    assert!(ancestor_workdirs(9, &info, &cwds).is_empty());
}

fn running() -> (SharedProcessData, HashMap<u32, String>) {
    let mut shared = no_processes();
    shared.process_info.insert(3, proc_info(3, 1, "bash"));
    shared.process_info.insert(4, proc_info(4, 3, "kimi-code"));
    let mut cwds = HashMap::new();
    cwds.insert(3, "/repo".to_string());
    (shared, cwds)
}

#[test]
fn past_sessions_of_a_live_workdir_stay_hidden() {
    let (shared, cwds) = running();
    let mut gone = session("gone", "/repo", 99, 5);
    gone.is_dir = false;
    let sessions = vec![
        session("old", "/repo", 10, 9000),
        session("new", "/repo", 20, 8000),
        session("elsewhere", "/other", 30, 9000),
        session("fresh", "/other", 5, 299),
        session("nowhere", "", 5, 10),
    ];
    let plan = KimiCollector::plan_sessions(
        &sessions,
        &vec![4],
        Some(77),
        &shared.process_info,
        &cwds,
    );
    assert_eq!(
        plan,
        vec![
            PlannedSession { index: 1, pid: 4 },
            PlannedSession { index: 3, pid: 77 },
            PlannedSession { index: 4, pid: 77 },
        ]
    );
    let plan = KimiCollector::plan_sessions(
        &vec![gone],
        &vec![4],
        None,
        &shared.process_info,
        &cwds,
    );
    assert!(plan.is_empty());
}

#[test]
fn nothing_is_shown_and_nothing_forgotten_while_kimi_does_not_run() {
    let (shared, cwds) = running();
    let mut known = session("s", "/repo", 20, 10);
    known.log = log("{\"type\":\"usage.record\",\"usage\":{\"output\":7}}\n");
    let sessions = vec![known];
    let mut collector = KimiCollector::new("~/.kimi-code".to_string());
    let shown = collector.collect_sessions(
        &policy(), root(), &sessions, &vec![4], None, &cwds, "kimi", &shared, NOW,
    );
    assert_eq!(shown.len(), 1);
    let offset = collector.resume_offset("s", (1, 2), 100);
    assert!(offset > 0);
    assert_eq!(collector.resume_offset("s", (1, 2), offset), offset);
    assert_eq!(collector.resume_offset("s", (1, 2), offset - 1), 0);
    assert_eq!(collector.resume_offset("s", (1, 3), 100), 0);
    let none = collector.collect_sessions(
        &policy(), root(), &sessions, &vec![], Some(1234), &cwds, "kimi", &shared, NOW,
    );
    assert!(none.is_empty());
    let no_root = RootFacts { is_dir: true, has_sessions: false, has_index: true };
    let none = collector.collect_sessions(
        &policy(), no_root, &sessions, &vec![4], None, &cwds, "kimi", &shared, NOW,
    );
    assert!(none.is_empty());
    assert_eq!(collector.resume_offset("s", (1, 2), 100), offset);
    let none = collector.collect_sessions(
        &policy(), root(), &vec![], &vec![4], None, &cwds, "kimi", &shared, NOW,
    );
    assert!(none.is_empty());
    assert_eq!(collector.resume_offset("s", (1, 2), 100), 0);
}

#[test]
fn report_is_sorted_newest_first_and_filled_from_the_log() {
    let (mut shared, cwds) = running();
    shared.children_map.insert(4, vec![40]);
    shared.process_info.insert(40, proc_info(40, 4, "node server.js"));
    shared.ports.insert(40, vec![8080, 8081]);
    let mut a = session("a", "/work/alpha", 10, 10);
    a.log = log("{\"type\":\"usage.record\",\"model\":\"m\",\"usage\":{\"inputOther\":131072,\"output\":2},\"time\":1781485999000}\n");
    a.title = "the title".to_string();
    let b = session("b", "", 30, 10);
    let c = session("c", "/repo", 10, 10);
    let mut collector = KimiCollector::new("~/.kimi-code".to_string());
    let shown = collector.collect_sessions(
        &policy(), root(), &vec![a, b, c], &vec![4], None, &cwds, "kimi-default", &shared, NOW,
    );
    assert_eq!(ids(&shown), vec!["b", "a", "c"]);
    let a = &shown[1];
    assert_eq!(a.agent_cli, "kimi");
    assert_eq!(a.project_name, "alpha");
    assert_eq!(a.status, SessionStatus::Thinking);
    assert_eq!(a.current_tasks, vec!["thinking...".to_string()]);
    assert_eq!(a.model, "m");
    assert_eq!(a.initial_prompt, "the title");
    assert_eq!(a.context_percent, ContextPercent::Tokens { used: 131072, window: 262144 });
    assert_eq!(a.context_history, vec![131072]);
    assert_eq!(a.pid, 0);
    assert_eq!(a.config_root, "~/.kimi-code");
    let c = &shown[2];
    assert_eq!(c.pid, 4);
    assert_eq!(c.status, SessionStatus::Waiting);
    assert_eq!(c.current_tasks, vec!["waiting for input".to_string()]);
    assert_eq!(c.model, "kimi-default");
    assert_eq!(c.mem_mb, 4);
    assert_eq!(c.children.len(), 1);
    assert_eq!(c.children[0].port, Some(8080));
    assert_eq!(shown[0].project_name, "?");
}

fn load(collector: &mut KimiCollector, log: Option<LogFile>) -> AgentSession {
    let (shared, cwds) = running();
    let mut s = session("s", "/repo", 1, 1);
    s.log = log;
    let shown = collector.collect_sessions(
        &policy(), root(), &vec![s], &vec![4], None, &cwds, "", &shared, NOW,
    );
    shown.into_iter().next().unwrap()
}

#[test]
fn reading_in_parts_tells_what_reading_at_once_tells() {
    let first = "{\"type\":\"context.append_message\",\"message\":{\"role\":\"assistant\",\"content\":\"one\"}}\n{\"type\":\"usage.record\",\"usage\":{\"inputOther\":3,\"output\":4},\"time\":5}\n";
    let second = "{\"type\":\"context.append_loop_event\",\"event\":{\"type\":\"tool.call\",\"name\":\"Read\",\"args\":{\"path\":\"/a/b/c\"}},\"time\":9}\n{\"type\":\"usage.record\",\"usage\":{\"inputOther\":30,\"output\":40}}\n";
    let whole = format!("{}{}", first, second);
    let mut once = KimiCollector::new(String::new());
    let b = load(&mut once, log(&whole));
    assert_eq!(b.total_input_tokens, 33);
    assert_eq!(b.total_output_tokens, 44);
    assert_eq!(b.current_tasks, vec!["Read b/c".to_string()]);
    assert_eq!(b.status, SessionStatus::Executing);
    assert_eq!(b.context_percent, ContextPercent::Tokens { used: 30, window: 262144 });
    for cut in [0, 1, first.len() - 1, first.len(), first.len() + 20, whole.len() - 1] {
        let mut parts = KimiCollector::new(String::new());
        load(&mut parts, log(&whole[..cut]));
        let from = parts.resume_offset("s", (1, 2), whole.len() as u64);
        assert!(from as usize <= cut);
        let grown = LogFile {
            identity: (1, 2),
            len: whole.len() as u64,
            start: from,
            bytes: whole.as_bytes()[from as usize..].to_vec(),
        };
        let a = load(&mut parts, Some(grown));
        assert_eq!(a.total_input_tokens, b.total_input_tokens);
        assert_eq!(a.total_output_tokens, b.total_output_tokens);
        assert_eq!(a.turn_count, b.turn_count);
        assert_eq!(a.current_tasks, b.current_tasks);
        assert_eq!(a.chat_messages.len(), b.chat_messages.len());
        assert_eq!(a.token_history, b.token_history);
        assert_eq!(a.context_percent, b.context_percent);
        assert_eq!(a.file_accesses[0].path, b.file_accesses[0].path);
        let unchanged = load(&mut parts, log(&whole));
        assert_eq!(unchanged.total_output_tokens, 44);
        assert_eq!(unchanged.context_history, a.context_history);
    }
}

#[test]
fn replaced_and_shrunk_logs_are_read_anew() {
    let usage = |output: u64| format!("{{\"type\":\"usage.record\",\"usage\":{{\"inputOther\":2,\"output\":{}}}}}\n", output);
    let long = format!("{}{}", usage(40), usage(50));
    let short = usage(7);
    for identity in [(1, 2), (1, 3)] {
        let mut collector = KimiCollector::new(String::new());
        assert_eq!(load(&mut collector, log(&long)).total_output_tokens, 90);
        let mut rewritten = log(&short).unwrap();
        rewritten.identity = identity;
        assert_eq!(collector.resume_offset("s", identity, rewritten.len), 0);
        let s = load(&mut collector, Some(rewritten));
        assert_eq!(s.total_output_tokens, 7);
        assert_eq!(s.total_input_tokens, 2);
        assert_eq!(s.token_history, vec![9]);
        assert_eq!(s.context_history, vec![2]);
        assert_eq!(collector.resume_offset("s", identity, 1000), short.len() as u64);
    }
    let mut collector = KimiCollector::new(String::new());
    load(&mut collector, log(&long));
    assert_eq!(load(&mut collector, log("")).total_output_tokens, 0);
}

#[test]
fn log_without_its_new_bytes_is_left_out() {
    let (shared, cwds) = running();
    let mut s = session("s", "/repo", 1, 1);
    s.log = Some(LogFile { identity: (1, 2), len: 50, start: 10, bytes: vec![] });
    let mut collector = KimiCollector::new(String::new());
    let shown = collector.collect_sessions(
        &policy(), root(), &vec![s], &vec![4], None, &cwds, "", &shared, NOW,
    );
    assert!(shown.is_empty());
}

#[test]
fn limits_bound_what_is_kept() {
    let small = Verbatim { max_chat_messages: 2, max_file_accesses: 1 };
    let (shared, cwds) = running();
    let mut text = String::new();
    for i in 0..600 {
        text.push_str(&format!("{{\"type\":\"context.append_message\",\"message\":{{\"role\":\"user\",\"content\":\"m{}\"}}}}\n", i));
        text.push_str(&format!("{{\"type\":\"context.append_loop_event\",\"event\":{{\"type\":\"tool.call\",\"name\":\"Read\",\"args\":{{\"path\":\"/p/{}\"}}}}}}\n", i));
    }
    let mut s = session("s", "/repo", 1, 1);
    s.log = log(&text);
    let mut collector = KimiCollector::new(String::new());
    let shown = collector.collect_sessions(
        &small, root(), &vec![s], &vec![4], None, &cwds, "", &shared, NOW,
    );
    assert_eq!(shown[0].chat_messages.len(), 2);
    assert_eq!(shown[0].chat_messages[1].text, "m599");
    assert_eq!(shown[0].tool_calls.len(), 500);
    assert_eq!(shown[0].file_accesses.len(), 1);
    assert_eq!(shown[0].file_accesses[0].path, "/p/599");
}
