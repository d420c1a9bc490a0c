use abtop::bounded::extend_keeping;
use abtop::content::extract_text_from_content;
use abtop::content::parse_tool_args;
use abtop::content::BlockKinds;
use abtop::content::ToolKind;
use abtop::json::parse_json;
use abtop::json::Json;
use abtop::jsonl::read_log;
use abtop::jsonl::MAX_LINE_BYTES;
use abtop::number::seconds_to_millis;
use abtop::number::whole_of_double;
use abtop::policy::HostPolicy;
use abtop::policy::Verbatim;
use abtop::process::ancestor_pids;
use abtop::process::cmd_first_token_has_binary;
use abtop::process::collect_children;
use abtop::process::cwd_in_lsof;
use abtop::process::descendants_of;
use abtop::process::has_active_descendant;
use abtop::process::is_descendant_of;
use abtop::process::last_path_segment;
use abtop::process::ProcInfo;
use abtop::process::SharedProcessData;
use abtop::text::chars_of;
use abtop::text::clean_prompt;
use abtop::text::first_line_of;
use abtop::text::lines_of;
use abtop::text::parse_u64;
use abtop::text::shorten_path;
use abtop::text::string_of;
use abtop::text::trim_str;
use abtop::text::truncate;
use abtop::text::truncate_field;
use abtop::text::words_of;
use std::collections::HashMap;

const SAMPLES: [&str; 14] = [
    "",
    " ",
    "a",
    "a\nb",
    "a\r\nb\r\n",
    "\n\n",
    "\r",
    "  x\ty \u{a0}z ",
    "# t\n```\ncode\n```\nrest",
    "日本語 テキスト",
    "a/b/c",
    "/a",
    "\u{2003}wide\u{3000}",
    "x\u{b}y\u{c}z\u{85}w\u{1680}v",
];

fn proc_info(pid: u32, ppid: u32, cpu_millis: u64) -> ProcInfo {
    ProcInfo { pid, ppid, rss_kb: 10, cpu_millis, command: format!("p{}", pid), start_ticks: 0 }
}

#[test]
fn text_splits_as_std_splits() {
    for s in SAMPLES {
        let lines: Vec<String> =
            lines_of(&chars_of(s)).iter().map(|l| string_of(l)).collect();
        let expected: Vec<String> = s.lines().map(|l| l.to_string()).collect();
        assert_eq!(lines, expected, "{:?}", s);
        let words: Vec<String> =
            words_of(&chars_of(s)).iter().map(|w| string_of(w)).collect();
        let expected: Vec<String> = s.split_whitespace().map(|w| w.to_string()).collect();
        assert_eq!(words, expected, "{:?}", s);
        assert_eq!(trim_str(s), s.trim());
        assert_eq!(first_line_of(s), s.lines().next().unwrap_or(s));
    }
}

#[test]
fn whole_numbers_parse_as_std_parses() {
    for s in ["0", "+7", "-7", "", "+", "007", "18446744073709551615", "18446744073709551616", "1 ", "1_0", "٣"] {
        assert_eq!(parse_u64(&chars_of(s)), s.parse::<u64>().ok(), "{:?}", s);
    }
}

#[test]
fn truncation_counts_characters_and_marks_the_cut() {
    assert_eq!(truncate("hello", 5), "hello");
    assert_eq!(truncate("hello!", 5), "hell…");
    assert_eq!(truncate("日本語", 2), "日…");
    assert_eq!(truncate("x", 0), "");
    assert_eq!(truncate("xy", 1), "…");
}

#[test]
fn fields_are_cut_at_character_boundaries() {
    for max in 0..8 {
        let mut ours = "aé日".to_string();
        truncate_field(&mut ours, max);
        let mut end = max.min(6);
        while !"aé日".is_char_boundary(end) {
            end -= 1;
        }
        assert_eq!(ours, "aé日"[..end]);
    }
}

#[test]
fn paths_keep_their_last_two_components() {
    assert_eq!(shorten_path("/repo/src/main.rs"), "src/main.rs");
    assert_eq!(shorten_path("a/b"), "a/b");
    assert_eq!(shorten_path("/a"), "/a");
    assert_eq!(shorten_path("a"), "a");
    assert_eq!(shorten_path("/a/b/"), "b/");
}

#[test]
fn prompts_lose_headings_fences_and_blank_lines() {
    assert_eq!(clean_prompt("# title\n\n  do it \n```rust\nnow"), "do it now");
    assert_eq!(clean_prompt("#"), "");
}

#[test]
fn project_names_come_from_the_last_component() {
    assert_eq!(last_path_segment("/a/b").as_deref(), Some("b"));
    assert_eq!(last_path_segment("/a/b/").as_deref(), Some("b"));
    assert_eq!(last_path_segment("/"), None);
    assert_eq!(last_path_segment(""), None);
}

#[test]
fn doubles_lose_their_fraction_as_casts_do() {
    let samples: [f64; 22] = [
        0.0, -0.0, 0.1, 0.9999999, 1.0, 1.5, 2.5, -1.0, 1e3, 123456789.987, 4503599627370495.5,
        4503599627370496.0, 9007199254740993.0, 1.8446744073709550e19, 1.8446744073709552e19,
        1e300, f64::MIN_POSITIVE, 5e-324, f64::INFINITY, f64::NEG_INFINITY, f64::NAN,
        1781485995.669,
    ];
    for f in samples {
        assert_eq!(whole_of_double(f.to_bits()), f as u64, "{}", f);
        assert_eq!(seconds_to_millis(f.to_bits()), (f * 1000.0) as u64, "{}", f);
    }
    let mut bits: u64 = 0x3ff0_0000_0000_0001;
    for _ in 0..2000 {
        bits = bits.wrapping_mul(6364136223846793005).wrapping_add(1442695040888963407);
        let f = f64::from_bits(bits);
        assert_eq!(whole_of_double(bits), f as u64, "{}", f);
        assert_eq!(seconds_to_millis(bits), (f * 1000.0) as u64, "{}", f);
        let near = 1.7e9 + (bits % 1_000_000_007) as f64 / 997.0;
        assert_eq!(seconds_to_millis(near.to_bits()), (near * 1000.0) as u64, "{}", near);
    }
}

#[test]
fn documents_are_taken_apart() {
    let doc = parse_json(r#"{"b":[null,true,-2.5,"x"],"a":{"n":18446744073709551615}}"#).unwrap();
    assert_eq!(doc.get("a").unwrap().get_u64("n"), Some(u64::MAX));
    match doc.get("b").unwrap() {
        Json::Array(items) => {
            assert_eq!(items.len(), 4);
            assert!(matches!(items[0], Json::Null));
            assert!(matches!(items[1], Json::Bool(true)));
            assert_eq!(items[2].as_bits(), Some((-2.5f64).to_bits()));
            assert_eq!(items[2].as_u64(), None);
            assert_eq!(items[3].as_str(), Some("x"));
            assert!(items[3].get("x").is_none());
        }
        _ => panic!("no array"),
    }
    assert!(parse_json("{").is_none());
    assert!(parse_json("").is_none());
}

#[test]
fn logs_are_read_line_by_line() {
    let (docs, read) = read_log(b"{\"a\":1}\n\nbroken\n[2]\n{\"c\"");
    assert_eq!(docs.len(), 2);
    assert_eq!(read, 20);
    let (docs, read) = read_log(b"{}\n{}");
    assert_eq!(docs.len(), 1);
    assert_eq!(read, 3);
    let (docs, read) = read_log(b"");
    assert!(docs.is_empty());
    assert_eq!(read, 0);
    let (docs, read) = read_log(b"1\n\x80\n2\n");
    assert_eq!(docs.len(), 1);
    assert_eq!(read, 2);
}

#[test]
fn line_that_is_too_long_is_passed_over() {
    let mut log = vec![b'x'; MAX_LINE_BYTES + 1];
    log.extend_from_slice(b"\n{}\n");
    let (docs, read) = read_log(&log);
    assert!(docs.is_empty());
    assert_eq!(read, MAX_LINE_BYTES + 1);
    let (docs, read) = read_log(&log[MAX_LINE_BYTES + 1..]);
    assert_eq!(docs.len(), 1);
    assert_eq!(read, 4);
    let (docs, read) = read_log(&log[..MAX_LINE_BYTES]);
    assert!(docs.is_empty());
    assert_eq!(read, 0);
}

#[test]
fn histories_keep_their_newest_entries() {
    let mut v = vec![1, 2, 3];
    extend_keeping(&mut v, vec![4, 5], 3);
    assert_eq!(v, vec![3, 4, 5]);
    extend_keeping(&mut v, vec![], 3);
    assert_eq!(v, vec![3, 4, 5]);
    extend_keeping(&mut v, vec![9], 0);
    assert!(v.is_empty());
}

struct Shouting;

impl HostPolicy for Shouting {
    fn sanitize_terminal_text(&self, text: &str) -> String {
        format!("<{}>", text)
    }

    fn redact_secrets(&self, text: &str) -> String {
        text.to_uppercase()
    }

    fn max_chat_messages(&self) -> usize {
        1
    }

    fn max_file_accesses(&self) -> usize {
        1
    }
}

#[test]
fn shown_text_goes_through_the_host() {
    let content = parse_json(r#"[{"type":"text","text":"a\n b"},{"type":"think","text":"c"},{"type":"image"}]"#);
    assert_eq!(extract_text_from_content(&Shouting, content.as_ref(), BlockKinds::Text), "<A B>");
    assert_eq!(
        extract_text_from_content(&Shouting, content.as_ref(), BlockKinds::TextAndThink),
        "<A B C>"
    );
    assert_eq!(extract_text_from_content(&Shouting, None, BlockKinds::Text), "<>");
    let plain = Verbatim { max_chat_messages: 1, max_file_accesses: 1 };
    let long = Json::Text("y".repeat(600));
    let shown = extract_text_from_content(&plain, Some(&long), BlockKinds::Text);
    assert_eq!(shown, format!("{}…", "y".repeat(499)));
}

#[test]
fn tool_arguments_are_shortened() {
    let args = |text: &str| parse_json(text).unwrap();
    let shell = args(r#"{"command":"make\ninstall"}"#);
    assert_eq!(parse_tool_args(&Shouting, ToolKind::Shell, &shell), ("MAKE".to_string(), None));
    assert_eq!(parse_tool_args(&Shouting, ToolKind::Other, &shell), ("make".to_string(), None));
    let file = args(r#"{"filePath":"/a/b/c.rs"}"#);
    let both = ("b/c.rs".to_string(), Some("/a/b/c.rs".to_string()));
    assert_eq!(parse_tool_args(&Shouting, ToolKind::File, &file), both);
    assert_eq!(parse_tool_args(&Shouting, ToolKind::Other, &file), both);
    let other = args(r#"{"z":1,"query":"find me"}"#);
    assert_eq!(parse_tool_args(&Shouting, ToolKind::Other, &other), ("find me".to_string(), None));
    assert_eq!(parse_tool_args(&Shouting, ToolKind::File, &other), (String::new(), None));
    assert_eq!(parse_tool_args(&Shouting, ToolKind::Other, &Json::Null), (String::new(), None));
}

#[test]
fn process_trees_are_walked_once_even_in_circles() {
    let mut children = HashMap::new();
    children.insert(1, vec![2, 3]);
    children.insert(3, vec![4, 1]);
    children.insert(4, vec![3]);
    assert_eq!(descendants_of(1, &children), vec![3, 1, 2, 4]);
    let mut info = HashMap::new();
    info.insert(4, proc_info(4, 3, 5001));
    assert!(has_active_descendant(1, &children, &info, 5000));
    assert!(!has_active_descendant(1, &children, &info, 5001));
    assert!(!has_active_descendant(2, &children, &info, 0));
    let shared = SharedProcessData {
        process_info: info,
        children_map: children,
        ports: HashMap::new(),
        slow_tick: false,
    };
    let kids = collect_children(1, &shared);
    assert_eq!(kids.len(), 1);
    assert_eq!(kids[0].command, "p4");
    assert_eq!(kids[0].port, None);
}

#[test]
fn ancestors_are_followed_up_to_the_first_again() {
    let mut info = HashMap::new();
    info.insert(4, proc_info(4, 3, 0));
    info.insert(3, proc_info(3, 2, 0));
    info.insert(2, proc_info(2, 3, 0));
    assert_eq!(ancestor_pids(4, &info), vec![3, 2]);
    assert!(is_descendant_of(4, 2, &info));
    assert!(!is_descendant_of(4, 4, &info));
    assert!(ancestor_pids(9, &info).is_empty());
}

#[test]
fn binaries_are_named_by_the_first_word() {
    assert!(cmd_first_token_has_binary("/usr/bin/kimi-code -x", "kimi-code"));
    assert!(cmd_first_token_has_binary("  kimi-code", "kimi-code"));
    assert!(!cmd_first_token_has_binary("grep kimi-code", "kimi-code"));
    assert!(!cmd_first_token_has_binary("", "kimi-code"));
}

#[test]
fn working_directory_is_the_first_name_that_lsof_tells() {
    assert_eq!(cwd_in_lsof("p42\nfcwd\nn\nn/home/u/n\nn/other\n").as_deref(), Some("/home/u/n"));
    assert_eq!(cwd_in_lsof("p42\r\nn/caf\u{e9}\r\n").as_deref(), Some("/caf\u{e9}"));
    assert_eq!(cwd_in_lsof("p42\nfcwd\nn\n"), None);
    assert_eq!(cwd_in_lsof(""), None);
}
