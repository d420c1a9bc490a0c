use abtop::activity::SessionDelta;
use abtop::cache::LogFile;
use abtop::cache::SessionCache;
use abtop::json::parse_json;
use abtop::json::Json;
use abtop::model::AgentSession;
use abtop::model::ChatRole;
use abtop::model::ContextPercent;
use abtop::model::FileOp;
use abtop::model::SessionStatus;
use abtop::pi::collector::combine_version;
use abtop::pi::collector::derive_status;
use abtop::pi::collector::KnownSidecar;
use abtop::pi::collector::KnownTranscript;
use abtop::pi::collector::PiCollector;
use abtop::pi::collector::PlannedSidecar;
use abtop::pi::collector::PlannedTranscript;
use abtop::pi::discovery::discover_transcripts;
use abtop::pi::discovery::pi_agent_dir;
use abtop::pi::discovery::read_transcript_header;
use abtop::pi::discovery::TranscriptFile;
use abtop::pi::discovery::TranscriptHeader;
use abtop::pi::sidecar::has_file_extension;
use abtop::pi::sidecar::read_active_sidecars;
use abtop::pi::sidecar::verify_sidecar;
use abtop::pi::sidecar::ClaimFile;
use abtop::pi::sidecar::Sidecar;
use abtop::pi::transcript::parse_transcript;
use abtop::pi::transcript::transcript_event_fits;
use abtop::policy::Verbatim;
use abtop::process::ProcInfo;
use abtop::process::SharedProcessData;
use abtop::report::ACTIVITY_FRESH_SECS;
use abtop::timestamp::timestamp_ms;
use std::collections::HashMap;

const NOW: u64 = 1_787_059_800_000;

fn policy() -> Verbatim {
    Verbatim { max_chat_messages: 100, max_file_accesses: 100 }
}

fn parse(text: &str) -> SessionDelta {
    parse_transcript(&policy(), text.len() as u64, text.as_bytes(), 0).unwrap()
}

fn proc_info(pid: u32, command: &str, start_ticks: u64) -> ProcInfo {
    ProcInfo { pid, ppid: 1, rss_kb: 5000, cpu_millis: 0, command: command.to_string(), start_ticks }
}

fn empty_shared() -> SharedProcessData {
    SharedProcessData {
        process_info: HashMap::new(),
        children_map: HashMap::new(),
        ports: HashMap::new(),
        slow_tick: true,
    }
}

fn shared_with_active_descendant(pid: u32) -> SharedProcessData {
    let mut shared = empty_shared();
    shared.process_info.insert(pid, proc_info(pid, "/repo/my-pi-agent", 100));
    let mut child = proc_info(pid + 1, "/bin/bash -c make", 1);
    child.cpu_millis = 40_000;
    shared.process_info.insert(pid + 1, child);
    shared.children_map.insert(pid, vec![pid + 1]);
    shared
}

fn busy_cache(last_activity: u64) -> SessionCache {
    let mut cache = SessionCache::empty();
    cache.current_task = "bash make".to_string();
    cache.last_activity = Some(last_activity);
    cache
}

fn transcript_text(sid: &str, cwd: &str) -> String {
    format!(
        "{{\"type\":\"session\",\"version\":3,\"id\":\"{}\",\"timestamp\":\"2026-08-18T13:27:26.247Z\",\"cwd\":\"{}\"}}\n",
        sid, cwd
    )
}

fn log_of(text: &str) -> Option<LogFile> {
    Some(LogFile { identity: (1, 1), len: text.len() as u64, start: 0, bytes: text.as_bytes().to_vec() })
}

fn transcript(sid: &str, cwd: &str, age_secs: u64) -> KnownTranscript {
    let text = transcript_text(sid, cwd);
    KnownTranscript {
        header: read_transcript_header(&text, &format!("/t/{}.jsonl", sid), 0).unwrap(),
        age_secs,
        log: log_of(&text),
    }
}

fn sidecar_text(pid: u32, sid: &str, cwd: &str, session_file: &str) -> String {
    format!(
        "{{\"pid\":{},\"agent\":\"my-pi-agent\",\"version\":\"0.84.2\",\"sessionId\":\"{}\",\"sessionFile\":\"{}\",\"cwd\":\"{}\",\"startedAt\":1787059700000,\"contextWindow\":262144,\"contextPercent\":10.0}}",
        pid, sid, session_file, cwd
    )
}

fn sidecars_of(files: Vec<(&str, String)>) -> Vec<Sidecar> {
    let files: Vec<ClaimFile> = files
        .into_iter()
        .map(|(name, text)| ClaimFile { name: name.to_string(), text: Some(text) })
        .collect();
    read_active_sidecars(&files)
}

fn claim(pid: u32, sid: &str, cwd: &str, age_secs: u64) -> KnownSidecar {
    let text = sidecar_text(pid, sid, cwd, &format!("/t/{}.jsonl", sid));
    let sidecar = sidecars_of(vec![("1.json", text)]).into_iter().next().unwrap();
    KnownSidecar { sidecar, transcript_age_secs: age_secs, log: log_of(&transcript_text(sid, cwd)) }
}

fn collect(
    sidecars: Vec<KnownSidecar>,
    transcripts: Vec<KnownTranscript>,
    shared: &SharedProcessData,
) -> (Vec<AgentSession>, Vec<u32>) {
    let mut collector = PiCollector::new("~/.pi/agent/sessions".to_string());
    collector.collect_sessions(
        &policy(),
        true,
        &sidecars,
        &transcripts,
        &PiCollector::find_pi_pids(&shared.process_info, 1),
        &HashMap::new(),
        shared,
        NOW,
    )
}

#[test]
fn find_pi_pids_matches_distro_binary_and_rejects_grep() {
    let mut info = HashMap::new();
    info.insert(1, proc_info(1, "/home/u/.local/bin/my-pi-agent --plan", 0));
    info.insert(2, proc_info(2, "/home/u/.local/bin/pi", 0));
    info.insert(3, proc_info(3, "grep my-pi-agent", 0));
    info.insert(4, proc_info(4, "bun /repo/src/index.ts", 0));
    let pids = PiCollector::find_pi_pids(&info, 9999);
    assert!(pids.contains(&1));
    assert!(pids.contains(&2));
    assert!(!pids.contains(&3));
    assert!(!pids.contains(&4));
}

#[test]
fn find_pi_pids_passes_over_what_runs_below_this_program() {
    let mut info = HashMap::new();
    info.insert(7, proc_info(7, "abtop", 0));
    let mut below = proc_info(8, "pi-coding-agent", 0);
    below.ppid = 7;
    info.insert(8, below);
    info.insert(9, proc_info(9, "C:/bin/my-pi-agent.exe", 0));
    assert_eq!(PiCollector::find_pi_pids(&info, 7), vec![9]);
}

#[test]
fn status_waiting_after_tool_finishes_despite_sticky_current_task() {
    let cache = busy_cache(NOW - (ACTIVITY_FRESH_SECS + 60) * 1000);
    let shared = empty_shared();
    assert_eq!(derive_status(4242, true, &cache, &shared, NOW), SessionStatus::Waiting);
}

#[test]
fn status_executing_when_tool_runs_as_active_descendant() {
    let cache = busy_cache(NOW);
    let shared = shared_with_active_descendant(4242);
    assert_eq!(derive_status(4242, true, &cache, &shared, NOW), SessionStatus::Executing);
}

#[test]
fn status_executing_only_while_recently_active_with_current_task() {
    let cache = busy_cache(NOW);
    let shared = empty_shared();
    assert_eq!(derive_status(4242, true, &cache, &shared, NOW), SessionStatus::Executing);
}

#[test]
fn status_unverified_is_unknown() {
    let cache = SessionCache::empty();
    let shared = empty_shared();
    assert_eq!(derive_status(4242, false, &cache, &shared, NOW), SessionStatus::Unknown);
}

#[test]
fn status_at_the_edge_of_freshness() {
    let shared = empty_shared();
    let mut cache = SessionCache::empty();
    cache.last_activity = Some(NOW - 29_999);
    assert_eq!(derive_status(1, true, &cache, &shared, NOW), SessionStatus::Thinking);
    cache.last_activity = Some(NOW - 30_000);
    assert_eq!(derive_status(1, true, &cache, &shared, NOW), SessionStatus::Waiting);
    cache.last_activity = Some(NOW + 1);
    assert_eq!(derive_status(1, true, &cache, &shared, NOW), SessionStatus::Waiting);
    cache.last_activity = None;
    assert_eq!(derive_status(1, true, &cache, &shared, NOW), SessionStatus::Waiting);
}

#[test]
fn transcript_parses_usage_into_tokens() {
    let d = parse(
        r#"{"type":"session","version":3,"id":"s1","timestamp":"2026-08-18T13:27:26.247Z","cwd":"/repo"}
{"type":"message","id":"a","parentId":null,"timestamp":"2026-08-18T13:27:26.300Z","message":{"role":"user","content":[{"type":"text","text":"do the thing"}]}}
{"type":"message","id":"b","parentId":"a","timestamp":"2026-08-18T13:27:26.400Z","message":{"role":"assistant","usage":{"input":1000,"output":200,"cacheRead":50,"cacheWrite":10,"totalTokens":1260},"model":"cuc/deepseek","content":[{"type":"text","text":"ok"},{"type":"toolCall","name":"edit","arguments":{"file_path":"/repo/src/main.rs"}}]}}
"#,
    );
    assert_eq!(d.input, 1000);
    assert_eq!(d.output, 200);
    assert_eq!(d.cache_read, 50);
    assert_eq!(d.cache_create, 10);
    assert_eq!(d.context_tokens, 1050);
    assert_eq!(d.model.as_deref(), Some("cuc/deepseek"));
    assert_eq!(d.turn_count, 1);
    assert_eq!(d.tool_calls.len(), 1);
    assert_eq!(d.tool_calls[0].name, "edit");
    assert_eq!(d.current_task, "edit src/main.rs");
    assert_eq!(d.file_accesses.len(), 1);
    assert_eq!(d.file_accesses[0].operation, FileOp::Edit);
    assert_eq!(d.initial_prompt, "do the thing");
    assert_eq!(d.chat_messages.len(), 2);
    assert_eq!(d.chat_messages[1].role, ChatRole::Assistant);
    assert_eq!(d.last_activity, Some(1787059646400));
}

#[test]
fn transcript_incremental_offset_only_parses_new_bytes() {
    let first = r#"{"type":"session","version":3,"id":"s1","timestamp":"2026-08-18T13:27:26.247Z","cwd":"/repo"}
{"type":"message","id":"a","parentId":null,"timestamp":"2026-08-18T13:27:26.400Z","message":{"role":"assistant","usage":{"input":10,"output":1,"cacheRead":0,"cacheWrite":0},"model":"m","content":[]}}
"#;
    let off = first.len() as u64;
    let d1 = parse(first);
    assert_eq!(d1.input, 10);
    assert_eq!(d1.new_offset, off);

    let second = r#"{"type":"message","id":"b","parentId":"a","timestamp":"2026-08-18T13:27:26.500Z","message":{"role":"assistant","usage":{"input":20,"output":2,"cacheRead":0,"cacheWrite":0},"model":"m","content":[]}}
"#;
    let d2 = parse_transcript(&policy(), off + second.len() as u64, second.as_bytes(), off).unwrap();
    assert_eq!(d2.input, 20);
    assert_eq!(d2.context_tokens, 20);
}

#[test]
fn transcript_changes_of_model_effort_and_context() {
    let d = parse(
        r#"{"type":"model_change","modelId":"a/b"}
{"type":"model_change","modelId":""}
{"type":"thinking_level_change","thinkingLevel":"high"}
{"type":"compaction"}
{"type":"compaction"}
{"type":"message","message":{"role":"toolResult","content":"x"}}
{"type":"message","message":{"role":"assistant","content":[{"type":"text","text":"  "},{"type":"toolCall","name":"bash","arguments":{"command":"make\ntest"}},{"type":"toolCall","name":"ls","arguments":{}}]}}
"#,
    );
    assert_eq!(d.model.as_deref(), Some("a/b"));
    assert_eq!(d.effort.as_deref(), Some("high"));
    assert_eq!(d.compaction_count, 2);
    assert_eq!(d.turn_count, 1);
    assert!(!d.saw_usage);
    assert!(d.chat_messages.is_empty());
    assert_eq!(d.first_assistant_text, "");
    assert_eq!(d.tool_calls[0].arg, "make");
    assert_eq!(d.current_task, "ls ");
    assert!(d.file_accesses.is_empty());
}

#[test]
fn transcript_counts_that_do_not_fit_are_refused() {
    let big = "{\"type\":\"message\",\"message\":{\"role\":\"assistant\",\"usage\":{\"output\":18446744073709551615}}}\n";
    let twice = big.repeat(2);
    assert!(parse_transcript(&policy(), twice.len() as u64, twice.as_bytes(), 0).is_none());
    let event = parse_json(big.trim()).unwrap();
    let mut delta = SessionDelta::starting_at(0);
    assert!(transcript_event_fits(&event, &delta));
    delta.output = 1;
    assert!(!transcript_event_fits(&event, &delta));
}

#[test]
fn sidecar_read_and_verify() {
    let scs = sidecars_of(vec![(
        "123.json",
        r#"{"pid":123,"agent":"my-pi-agent","sessionId":"s9","sessionFile":"/repo/s9.jsonl","cwd":"/repo","startedAt":1787059700000,"contextWindow":262144,"contextPercent":42.5,"model":"cuc/deepseek"}"#.to_string(),
    )]);
    assert_eq!(scs.len(), 1);
    assert_eq!(scs[0].pid, 123);
    assert_eq!(scs[0].session_id, "s9");
    assert_eq!(scs[0].context_window, Some(262144));
    assert_eq!(scs[0].context_percent.map(f64::from_bits), Some(42.5));
    assert_eq!(scs[0].agent, "my-pi-agent");

    let mut info = HashMap::new();
    let mut bogus = HashMap::new();
    bogus.insert(999, proc_info(999, "other", 0));
    let mut sc = scs.into_iter().next().unwrap();
    assert!(!verify_sidecar(&sc, &bogus));
    info.insert(123, proc_info(123, "/repo/my-pi-agent", 100));
    assert!(verify_sidecar(&sc, &info));
    sc.proc_start = Some(999);
    assert!(!verify_sidecar(&sc, &info));
    sc.proc_start = Some(100);
    assert!(verify_sidecar(&sc, &info));
    sc.proc_start = Some(0);
    assert!(verify_sidecar(&sc, &info));
    info.insert(123, proc_info(123, "/repo/my-pi-agent", 0));
    sc.proc_start = Some(999);
    assert!(verify_sidecar(&sc, &info));
}

#[test]
fn sidecars_that_claim_nothing_are_passed_over() {
    let scs = sidecars_of(vec![
        ("1.txt", sidecar_text(1, "a", "/", "/f")),
        ("2.json", "{}".to_string()),
        ("3.json", "broken".to_string()),
        ("4.json", r#"{"sessionId":"s","cwd":"/","sessionFile":"/f","contextPercent":7}"#.to_string()),
    ]);
    assert_eq!(scs.len(), 1);
    assert_eq!(scs[0].pid, 0);
    assert_eq!(scs[0].agent, "pi");
    assert_eq!(scs[0].started_at, 0);
    assert_eq!(scs[0].context_percent.map(f64::from_bits), Some(7.0));
    let unreadable = vec![ClaimFile { name: "5.json".to_string(), text: None }];
    assert!(read_active_sidecars(&unreadable).is_empty());
}

#[test]
fn file_extensions_follow_the_last_dot() {
    for name in ["a.json", ".json", "..json", "a.b.json", "json", "a.", "a.jsonl", ""] {
        let expected = std::path::Path::new(name).extension().map(|e| e == "json").unwrap_or(false);
        assert_eq!(has_file_extension(name, "json"), expected, "{}", name);
    }
}

#[test]
fn timestamp_ms_parses_iso8601() {
    assert_eq!(timestamp_ms(Some(&Json::Text("1970-01-01T00:00:00.000Z".to_string()))), Some(0));
    assert_eq!(timestamp_ms(Some(&Json::Text("1970-01-02T00:00:00.000Z".to_string()))), Some(86400000));
}

#[test]
fn timestamps_in_odd_shapes() {
    let at = |s: &str| {
        let v = Json::Text(s.to_string());
        timestamp_ms(Some(&v))
    };
    assert_eq!(at("2000-02-29T00:00:00Z"), Some(951782400000));
    assert_eq!(at("2026-08-18T13:27:26.247Z"), Some(1787059646247));
    assert_eq!(at("2026-08-18T13:27:26.2471234Z"), Some(1787059646247));
    assert_eq!(at("2026-08-18T13:27:26.5Z"), Some(1787059646500));
    assert_eq!(at("1970-01-01T00:00:00.5Z"), Some(500));
    assert_eq!(at("1970-01-01T00:00:00.25"), Some(250));
    assert_eq!(at("1970-01-01T00:00:00.05Z"), Some(50));
    assert_eq!(at("1970-01-01T00:00:00.Z"), Some(0));
    assert_eq!(at("1970-01-01T00:00:00.xZ"), Some(0));
    assert_eq!(at("2026-08-18T13:27Z"), Some(1787059620000));
    assert_eq!(at("2026-08-18"), None);
    assert_eq!(at("2026-08T13:27:26Z"), None);
    assert_eq!(at("year-08-18T13:27:26Z"), None);
    assert_eq!(timestamp_ms(Some(&Json::Null)), None);
    assert_eq!(timestamp_ms(None), None);
    assert_eq!(at("1969-12-31T23:59:59Z"), None);
    assert_eq!(at("0-01-01T00:00:00Z"), None);
    assert_eq!(at("18446744073709551615-01-01T00:00:00Z"), None);
    assert_eq!(at("9999-12-31T23:59:59.999Z"), Some(253402300799999));
}

#[test]
fn days_are_counted_one_by_one() {
    let mut expected = 0;
    for year in 1970..2101u64 {
        let leap = year % 4 == 0 && (year % 100 != 0 || year % 400 == 0);
        let february = if leap { 29 } else { 28 };
        let months = [31, february, 31, 30, 31, 30, 31, 31, 30, 31, 30, 31];
        for (month, days) in months.iter().enumerate() {
            for day in 1..=*days {
                let date = format!("{}-{:02}-{:02}", year, month + 1, day);
                let text = format!("{}T00:00:00Z", date);
                assert_eq!(timestamp_ms(Some(&Json::Text(text))), Some(expected));
                let text = format!("{}T23:04:05.067Z", date);
                assert_eq!(timestamp_ms(Some(&Json::Text(text))), Some(expected + 83045067));
                expected += 86400000;
            }
        }
    }
}

#[test]
fn stale_sidecar_with_stale_transcript_is_gced_and_hidden() {
    let shared = empty_shared();
    let (sessions, dropped) = collect(
        vec![claim(9999, "old-sid", "/repo/abtop", 3600)],
        vec![transcript("old-sid", "/repo/abtop", 3600)],
        &shared,
    );
    assert!(sessions.is_empty(), "dead session must not appear: {:#?}", sessions);
    assert_eq!(dropped, vec![9999], "stale sidecar file should have been GC'd");
}

#[test]
fn stale_sidecar_with_fresh_transcript_shows_unknown_within_window() {
    let (sessions, dropped) = collect(
        vec![claim(9999, "fresh-sid", "/repo/abtop", 5)],
        vec![transcript("fresh-sid", "/repo/abtop", 5)],
        &empty_shared(),
    );
    assert_eq!(sessions.len(), 1);
    assert_eq!(sessions[0].session_id, "fresh-sid");
    assert_eq!(sessions[0].status, SessionStatus::Unknown);
    assert_eq!(sessions[0].current_tasks, vec!["unknown status".to_string()]);
    assert!(dropped.is_empty());
}

#[test]
fn restart_in_same_workspace_shows_only_new_session() {
    let mut shared = empty_shared();
    shared.process_info.insert(4242, proc_info(4242, "/repo/my-pi-agent", 200));
    let (sessions, dropped) = collect(
        vec![
            claim(9998, "old-sid", "/repo/abtop", 3600),
            claim(4242, "new-sid", "/repo/abtop", 5),
        ],
        vec![
            transcript("new-sid", "/repo/abtop", 5),
            transcript("old-sid", "/repo/abtop", 3600),
        ],
        &shared,
    );
    assert_eq!(sessions.len(), 1, "only the live session should appear: {:#?}", sessions);
    assert_eq!(sessions[0].session_id, "new-sid");
    assert_eq!(sessions[0].pid, 4242);
    assert_ne!(sessions[0].status, SessionStatus::Unknown);
    assert_eq!(dropped, vec![9998]);
}

#[test]
fn live_sidecar_cwd_swallows_unclaimed_fresh_transcript() {
    let mut shared = empty_shared();
    shared.process_info.insert(4242, proc_info(4242, "/repo/my-pi-agent", 200));
    let (sessions, _) = collect(
        vec![claim(4242, "live-sid", "/repo/abtop", 5)],
        vec![
            transcript("ghost-sid", "/repo/abtop", 1),
            transcript("live-sid", "/repo/abtop", 5),
        ],
        &shared,
    );
    assert_eq!(
        sessions.len(),
        1,
        "only the live sidecar session should appear, no PID-0 ghost: {:#?}",
        sessions
    );
    assert_eq!(sessions[0].session_id, "live-sid");
    assert_eq!(sessions[0].pid, 4242);
    assert_ne!(sessions[0].status, SessionStatus::Unknown);
}

#[test]
fn transcript_fallback_shows_only_fresh_transcripts() {
    let (sessions, _) = collect(
        vec![],
        vec![
            transcript("new-sid", "/repo/abtop", 1),
            transcript("old-sid", "/repo/abtop", 3600),
        ],
        &empty_shared(),
    );
    assert_eq!(sessions.len(), 1);
    assert_eq!(sessions[0].session_id, "new-sid");
    assert_eq!(sessions[0].pid, 0);
    assert_eq!(sessions[0].status, SessionStatus::Unknown);
}

#[test]
fn occupied_directory_shows_its_newest_transcript_alone() {
    let mut info = HashMap::new();
    info.insert(5, proc_info(5, "pi", 0));
    let mut cwds = HashMap::new();
    cwds.insert(5, "/a".to_string());
    let transcripts = vec![
        transcript("newest", "/a", 9000),
        transcript("older", "/a", 10),
        transcript("nowhere", "", 10),
        transcript("elsewhere", "/b", 299),
        transcript("past", "/b", 300),
    ];
    let plan = PiCollector::plan_transcripts(&transcripts, &vec![], &vec![5], &info, &cwds);
    assert_eq!(
        plan,
        vec![
            PlannedTranscript { index: 0, pid: 0, unknown_status: true },
            PlannedTranscript { index: 2, pid: 0, unknown_status: true },
            PlannedTranscript { index: 3, pid: 0, unknown_status: true },
        ]
    );
}

#[test]
fn unclaimed_transcript_belongs_to_no_process() {
    let mut shared = empty_shared();
    shared.process_info.insert(77, proc_info(77, "my-pi-agent", 0));
    let mut cwds = HashMap::new();
    cwds.insert(77, "/w".to_string());
    let mut collector = PiCollector::new(String::new());
    let (sessions, _) = collector.collect_sessions(
        &policy(), true, &vec![], &vec![transcript("s", "/w", 0)], &vec![77], &cwds, &shared, NOW,
    );
    assert_eq!(sessions.len(), 1);
    assert_eq!(sessions[0].session_id, "s");
    assert_eq!(sessions[0].pid, 0);
    assert_eq!(sessions[0].status, SessionStatus::Unknown);
    assert_eq!(sessions[0].context_percent, ContextPercent::NotKnown);
    assert_eq!(sessions[0].mem_mb, 0);
}

#[test]
fn unfinished_entry_waits_and_uncountable_time_is_none() {
    let header = transcript_text("s", "/w");
    let entry = "{\"type\":\"compaction\",\"timestamp\":\"1960-01-01T00:00:00Z\"}\n";
    let text = format!("{}{}", header, entry);
    let d = parse(&text[..text.len() - 1]);
    assert_eq!((d.compaction_count, d.new_offset), (0, header.len() as u64));
    let d = parse(&text);
    assert_eq!((d.compaction_count, d.new_offset), (1, text.len() as u64));
    assert_eq!(d.last_activity, Some(1787059646247));
}

#[test]
fn shrunk_transcript_is_read_anew() {
    let shared = empty_shared();
    let t = transcript("s", "/w", 1);
    let mut collector = PiCollector::new(String::new());
    let entry = "{\"type\":\"compaction\"}\n";
    for (text, expected) in [(entry.repeat(3), 3), (entry.repeat(2), 2), (entry.repeat(4), 4)] {
        let s = collector
            .load_session_from_transcript(&policy(), &t.header, 0, true, &log_of(&text), &shared, NOW)
            .unwrap();
        assert_eq!(s.compaction_count, expected);
    }
}

#[test]
fn reused_process_number_is_shown_unknown_but_never_dropped() {
    let mut info = HashMap::new();
    info.insert(5, proc_info(5, "vim", 77));
    let mut fresh = claim(5, "a", "/a", 299);
    fresh.sidecar.proc_start = Some(76);
    let mut stale = claim(5, "b", "/a", 300);
    stale.sidecar.proc_start = Some(76);
    let (shown, dropped) = PiCollector::plan_sidecars(&vec![fresh, stale], &info);
    assert_eq!(shown, vec![PlannedSidecar { index: 0, verified: false }]);
    assert!(dropped.is_empty());
}

#[test]
fn claimed_session_is_filled_from_claim_and_transcript() {
    let mut shared = shared_with_active_descendant(4242);
    shared.ports.insert(4243, vec![3000]);
    let mut known = claim(4242, "s", "/repo/abtop", 5);
    known.sidecar.model = Some("claimed".to_string());
    let mut collector = PiCollector::new("~/.pi".to_string());
    let s = collector
        .load_session_from_sidecar(&policy(), &known.sidecar, true, &known.log, &shared, NOW)
        .unwrap();
    assert_eq!(s.agent_cli, "pi");
    assert_eq!(s.model, "claimed");
    assert_eq!(s.version, "my-pi-agent 0.84.2");
    assert_eq!(s.context_window, 262144);
    assert_eq!(s.context_percent, ContextPercent::Reported { bits: 10.0f64.to_bits() });
    assert_eq!(s.started_at, 1787059700000);
    assert_eq!(s.status, SessionStatus::Executing);
    assert_eq!(s.project_name, "abtop");
    assert_eq!(s.children[0].port, Some(3000));
    assert_eq!(s.config_root, "~/.pi");
    let more = format!(
        "{}{}",
        transcript_text("s", "/repo/abtop"),
        "{\"type\":\"model_change\",\"modelId\":\"used\"}\n{\"type\":\"message\",\"message\":{\"role\":\"user\",\"content\":\"go\"}}\n"
    );
    known.sidecar.title = Some("named".to_string());
    let s = collector
        .load_session_from_sidecar(&policy(), &known.sidecar, true, &log_of(&more), &shared, NOW)
        .unwrap();
    assert_eq!(s.model, "used");
    assert_eq!(s.initial_prompt, "named");
    known.sidecar.title = None;
    known.sidecar.context_percent = None;
    let s = collector
        .load_session_from_sidecar(&policy(), &known.sidecar, true, &None, &shared, NOW)
        .unwrap();
    assert_eq!(s.initial_prompt, "go");
    assert_eq!(s.context_percent, ContextPercent::NotKnown);
}

#[test]
fn transcript_session_status_follows_its_process_where_confirmed() {
    let shared = shared_with_active_descendant(4242);
    let t = transcript("s", "/repo/abtop", 5);
    let mut collector = PiCollector::new(String::new());
    let s = collector
        .load_session_from_transcript(&policy(), &t.header, 4242, false, &t.log, &shared, NOW)
        .unwrap();
    assert_eq!(s.status, SessionStatus::Executing);
    assert_eq!(s.current_tasks, vec!["thinking...".to_string()]);
    assert_eq!(s.children.len(), 1);
    assert_eq!(s.started_at, 1787059646247);
    let s = collector
        .load_session_from_transcript(&policy(), &t.header, 0, false, &t.log, &shared, NOW)
        .unwrap();
    assert_eq!(s.status, SessionStatus::Unknown);
    assert!(s.children.is_empty());
}

#[test]
fn report_is_sorted_newest_first() {
    let mut a = transcript("a", "", 1);
    a.header.started_at = 1;
    let mut b = transcript("b", "", 1);
    b.header.started_at = 3;
    let mut c = transcript("c", "", 1);
    c.header.started_at = 3;
    let (sessions, _) = collect(vec![], vec![a, b, c], &empty_shared());
    let ids: Vec<&str> = sessions.iter().map(|s| s.session_id.as_str()).collect();
    assert_eq!(ids, vec!["b", "c", "a"]);
}

#[test]
fn missing_root_forgets_nothing() {
    let shared = empty_shared();
    let none = HashMap::new();
    let mut collector = PiCollector::new(String::new());
    let shown = collector.collect_sessions(
        &policy(), true, &vec![], &vec![transcript("s", "", 1)], &vec![], &none, &shared, NOW,
    );
    assert_eq!(shown.0.len(), 1);
    let offset = collector.resume_offset("s", (1, 1), 1000);
    assert!(offset > 0);
    let gone = vec![claim(1, "x", "/", 9000)];
    let (shown, dropped) = collector.collect_sessions(
        &policy(), false, &gone, &vec![], &vec![], &none, &shared, NOW,
    );
    assert!(shown.is_empty() && dropped.is_empty());
    assert_eq!(collector.resume_offset("s", (1, 1), 1000), offset);
    collector.collect_sessions(
        &policy(), true, &vec![], &vec![], &vec![], &none, &shared, NOW,
    );
    assert_eq!(collector.resume_offset("s", (1, 1), 1000), 0);
}

#[test]
fn headers_of_transcripts() {
    let h = |text: &str| read_transcript_header(text, "/p", 42);
    let found = h("\n{\"type\":\"x\"}\nbroken\n{\"type\":\"session\",\"id\":\"s\"}\n").unwrap();
    assert_eq!(found.session_id, "s");
    assert_eq!(found.cwd, "");
    assert_eq!(found.started_at, 42);
    assert_eq!(found.path, "/p");
    assert!(h("{\"type\":\"session\"}\n{\"type\":\"session\",\"id\":\"s\"}\n").is_none());
    assert!(h("").is_none());
    let before = h("{\"type\":\"session\",\"id\":\"s\",\"timestamp\":\"1960-01-01T00:00:00Z\"}").unwrap();
    assert_eq!(before.started_at, 42);
    let _: Option<TranscriptHeader> = h("x");
}

#[test]
fn transcripts_are_discovered_newest_first() {
    let file = |dir: &str, name: &str, modified_secs: u64| TranscriptFile {
        dir_name: dir.to_string(),
        name: name.to_string(),
        path: format!("/{}/{}", dir, name),
        modified_secs,
    };
    let found = discover_transcripts(vec![
        file("--a--", "1.jsonl", 5),
        file("active", "2.jsonl", 9),
        file("--a--", "3.json", 9),
        file("--b--", "4.jsonl", 7),
        file("--b--", "5.jsonl", 5),
    ]);
    let names: Vec<&str> = found.iter().map(|f| f.name.as_str()).collect();
    assert_eq!(names, vec!["4.jsonl", "1.jsonl", "5.jsonl"]);
}

#[test]
fn agent_directory_named_by_the_environment() {
    assert_eq!(pi_agent_dir(Some("/a"), Some("/b")).as_deref(), Some("/a"));
    assert_eq!(pi_agent_dir(Some(""), Some("/b")).as_deref(), Some("/b"));
    assert_eq!(pi_agent_dir(None, Some("")), None);
    assert_eq!(pi_agent_dir(None, None), None);
}

#[test]
fn versions_drop_what_is_empty() {
    assert_eq!(combine_version("my-pi-agent", Some("0.84.2")), "my-pi-agent 0.84.2");
    assert_eq!(combine_version("pi", None), "pi");
    assert_eq!(combine_version("pi", Some("")), "pi");
    assert_eq!(combine_version("", Some("1")), "1");
    assert_eq!(combine_version("", None), "");
}
