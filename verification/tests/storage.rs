use agent_engine::config::{config_dir, config_path, default_path, path_within, AppConfig};
use agent_engine::git::{format_diff, log_line, reset_text, status, DiffLine, FileChange, StatusFlags};
use agent_engine::json::{key_repeats, Json};
use agent_engine::snapshot::{sanitize_filename, sanitize_id, SnapshotManager};
use agent_engine::storage::{
    load_session_messages, reconstruct_message, result_from_json, result_from_text, result_to_json,
    save_message, save_messages, MessageRows,
};
use agent_engine::types::{ContentPart, Message, ToolCall, ToolResultValue};

fn text(s: &str) -> ContentPart {
    ContentPart::Text { text: s.to_string() }
}

fn samples() -> Vec<Message> {
    let s = |t: &str| t.to_string();
    vec![
        Message::System { id: s("1"), content: s("be \"kind\"\n") },
        Message::User {
            id: s("2"),
            content: vec![
                text("hi"),
                ContentPart::Reasoning { text: s("r") },
                ContentPart::File { uri: s("u"), mime: s("m") },
            ],
        },
        Message::Assistant {
            id: s("3"),
            content: vec![ContentPart::Reasoning { text: s("why") }, text("日本")],
            tool_calls: vec![
                ToolCall { id: s("c"), name: s("read"), input: Json::parse("{\"path\":\"x\"}").unwrap() },
                ToolCall { id: s("d"), name: s("bash"), input: Json::null() },
            ],
        },
        Message::Tool {
            id: s("4"),
            tool_call_id: s("c"),
            tool_name: s("read"),
            result: ToolResultValue::Text { value: s("content") },
        },
        Message::Tool {
            id: s("5"),
            tool_call_id: s("c"),
            tool_name: s("read"),
            result: ToolResultValue::Json { value: Json::parse("[1.5,{\"k\":null}]").unwrap() },
        },
        Message::Tool {
            id: s("6"),
            tool_call_id: s("d"),
            tool_name: s("bash"),
            result: ToolResultValue::Error { value: s("no") },
        },
    ]
}

fn show(m: &Message) -> String {
    let parts = |ps: &Vec<ContentPart>| -> String {
        ps.iter()
            .map(|p| match p {
                ContentPart::Text { text } => format!("t:{text};"),
                ContentPart::Reasoning { text } => format!("r:{text};"),
                ContentPart::File { uri, mime } => format!("f:{uri},{mime};"),
            })
            .collect()
    };
    match m {
        Message::System { id, content } => format!("{id} system {content}"),
        Message::User { id, content } => format!("{id} user {}", parts(content)),
        Message::Assistant { id, content, tool_calls } => {
            let calls: String = tool_calls
                .iter()
                .map(|c| format!("{}/{}/{};", c.id, c.name, c.input.text))
                .collect();
            format!("{id} assistant {} {calls}", parts(content))
        }
        Message::Tool { id, tool_call_id, tool_name, result } => {
            let r = match result {
                ToolResultValue::Text { value } => format!("text {value}"),
                ToolResultValue::Json { value } => format!("json {}", value.text),
                ToolResultValue::Error { value } => format!("error {value}"),
            };
            format!("{id} tool {tool_call_id} {tool_name} {r}")
        }
    }
}

#[test]
fn stored_messages_are_read_back() {
    let messages = samples();
    let rows = save_messages(&messages);
    let back = load_session_messages(&rows);
    assert_eq!(
        back.iter().map(show).collect::<Vec<_>>(),
        messages.iter().map(show).collect::<Vec<_>>()
    );
}

#[test]
fn rows_hold_kind_place_and_data() {
    let rows = save_message(&samples()[2]);
    assert_eq!((rows.id.as_str(), rows.role.as_str()), ("3", "assistant"));
    let kinds: Vec<(&str, i64)> = rows.parts.iter().map(|p| (p.0.as_str(), p.1)).collect();
    assert_eq!(kinds, vec![("reasoning", 0), ("text", 1), ("tool_call", 2), ("tool_call", 3)]);
    assert_eq!(rows.parts[2].2, "{\"id\":\"c\",\"input\":{\"path\":\"x\"},\"name\":\"read\"}");
    let rows = save_message(&samples()[5]);
    assert_eq!(rows.results[0].2, "error");
    assert_eq!(rows.results[0].3, "{\"type\":\"Error\",\"value\":\"no\"}");
    assert_eq!(save_message(&samples()[3]).results[0].2, "success");
}

#[test]
fn a_tool_message_is_also_read_from_its_part() {
    let mut rows = save_message(&samples()[4]);
    rows.results.clear();
    let back = reconstruct_message(&rows.id, &rows.role, &rows.parts, &rows.results).unwrap();
    assert_eq!(show(&back), show(&samples()[4]));
}

fn read(role: &str, parts: Vec<(&str, &str)>) -> Option<Message> {
    let rows = parts
        .iter()
        .enumerate()
        .map(|(i, (t, d))| (t.to_string(), i as i64, d.to_string()))
        .collect();
    reconstruct_message("i", role, &rows, &vec![])
}

#[test]
fn unreadable_rows_are_left_out_or_spoil_a_reply() {
    assert_eq!(show(&read("system", vec![]).unwrap()), "i system ");
    assert_eq!(show(&read("system", vec![("system", "oops")]).unwrap()), "i system ");
    assert_eq!(
        show(&read("user", vec![("text", "oops"), ("text", "{}"), ("what", "{}"), ("text", "{\"text\":\"x\"}")]).unwrap()),
        "i user t:x;"
    );
    assert!(read("assistant", vec![("text", "oops")]).is_none());
    assert!(read("assistant", vec![("text", "{}")]).is_none());
    assert_eq!(
        show(&read("assistant", vec![("tool_call", "{}"), ("what", "{}"), ("text", "{\"text\":\"x\"}")]).unwrap()),
        "i assistant t:x; "
    );
    assert!(read("tool", vec![]).is_none());
    assert!(read("tool", vec![("tool_result", "{}")]).is_none());
    assert!(read("nobody", vec![]).is_none());
    let rows = vec![
        MessageRows { id: "x".to_string(), role: "nobody".to_string(), parts: vec![], results: vec![] },
        save_message(&samples()[0]),
    ];
    assert_eq!(load_session_messages(&rows).len(), 1);
}

#[test]
fn results_are_tagged() {
    let r = ToolResultValue::Text { value: "v".to_string() };
    assert_eq!(result_to_json(&r).text, "{\"type\":\"Text\",\"value\":\"v\"}");
    assert!(result_from_json(&Json::parse("{\"type\":\"Text\"}").unwrap()).is_none());
    assert!(result_from_json(&Json::parse("{\"type\":\"Else\",\"value\":\"\"}").unwrap()).is_none());
    assert!(result_from_json(&Json::parse("{\"type\":\"Json\"}").unwrap()).is_none());
    assert!(result_from_json(&Json::parse("{\"value\":\"\"}").unwrap()).is_none());
}

fn kind_of(r: Option<ToolResultValue>) -> String {
    match r {
        Some(ToolResultValue::Text { value }) => format!("text {value}"),
        Some(ToolResultValue::Json { value }) => format!("json {}", value.text),
        Some(ToolResultValue::Error { value }) => format!("error {value}"),
        None => "none".to_string(),
    }
}

#[test]
fn a_result_may_be_stored_as_an_array() {
    assert_eq!(kind_of(result_from_text("[\"Text\", \"v\"]")), "text v");
    assert_eq!(kind_of(result_from_text("[\"Json\", {\"value\": [1]}]")), "json {\"value\":[1]}");
    assert_eq!(kind_of(result_from_text("[\"Error\", \"no\"]")), "error no");
    assert_eq!(kind_of(result_from_text("[\"Text\"]")), "none");
    assert_eq!(kind_of(result_from_text("[\"Text\", 1]")), "none");
    assert_eq!(kind_of(result_from_text("[\"Text\", \"v\", \"w\"]")), "none");
    assert_eq!(kind_of(result_from_text("[1, \"v\"]")), "none");
    let part = "{\"tool_call_id\":\"c\",\"tool_name\":\"n\",\"result\":[\"Text\",\"v\"]}";
    assert!(matches!(
        read("tool", vec![("tool_result", part)]),
        Some(Message::Tool { result: ToolResultValue::Text { value }, .. }) if value == "v"
    ));
}

#[test]
fn a_stored_result_names_its_parts_once() {
    let once = " { \"value\" : \"a\\\\\\\"b\" , \"other\": 1, \"other\": 2, \"type\" : \"Text\" } ";
    assert_eq!(kind_of(result_from_text(once)), "text a\\\"b");
    let nested = "{\"type\":\"Json\",\"value\":{\"type\":1,\"type\":2,\"value\":[{\"value\":\"type\"}]}}";
    assert_eq!(
        kind_of(result_from_text(nested)),
        "json {\"type\":2,\"value\":[{\"value\":\"type\"}]}"
    );
    let twice = "{\"type\":\"Text\",\"value\":\"a\",\"value\":\"b\"}";
    assert_eq!(kind_of(result_from_text(twice)), "none");
    assert_eq!(kind_of(result_from_json(&Json::parse(twice).unwrap())), "text b");
    assert_eq!(
        kind_of(result_from_text("{\"type\":\"Text\",\"value\":\"a\",\"\\u0074ype\":\"Text\"}")),
        "none"
    );
    assert!(key_repeats(twice, "value"));
    assert!(!key_repeats(twice, "type"));
    assert!(!key_repeats("[\"value\",\"value\"]", "value"));
    assert_eq!(kind_of(result_from_text("{\"type\":\"Text\"")), "none");
    let stored = |text: &str| vec![("c".to_string(), "n".to_string(), "success".to_string(), text.to_string())];
    assert!(reconstruct_message("i", "tool", &vec![], &stored(twice)).is_none());
    assert!(reconstruct_message("i", "tool", &vec![], &stored(once)).is_some());
}

#[test]
fn data_lies_under_the_home_directory() {
    assert_eq!(config_dir("/h"), "/h/.local/share/agent-engine");
    assert_eq!(config_path("/h/"), "/h/.local/share/agent-engine/config.json");
    assert_eq!(default_path(""), ".local/share/agent-engine/agent-engine.db");
    assert_eq!(path_within("a", ""), "a/");
    for (a, b) in [("/h", "x"), ("/", "x"), ("", "x"), ("a/", "x"), ("a", "")] {
        assert_eq!(path_within(a, b), std::path::PathBuf::from(a).join(b).to_string_lossy());
    }
    assert!(AppConfig::default().api_key.is_none());
}

#[test]
fn names_are_made_safe() {
    assert_eq!(sanitize_id("a-b.c/日1"), "a_b_c_日1");
    assert_eq!(sanitize_filename("/a b/c\t.rs"), "_a_b_c_.rs");
    let m = SnapshotManager::new("/h", "s-1");
    assert_eq!(m.snap_dir, "/h/.local/share/agent-engine/snapshots/s_1");
    assert_eq!(
        m.backup_path("src/a.rs", 12),
        "/h/.local/share/agent-engine/snapshots/s_1/12_src_a.rs"
    );
    assert_eq!(
        m.backup_path("a", -5),
        "/h/.local/share/agent-engine/snapshots/s_1/-5_a"
    );
}

#[test]
fn letters_and_digits_of_ascii_are_alphanumeric() {
    for c in (0u8..128).map(char::from) {
        assert_eq!(sanitize_id(&c.to_string()) == "_", !c.is_ascii_alphanumeric());
    }
}

#[test]
fn undo_takes_the_newest_copy() {
    let mut m = SnapshotManager::new("/h", "s");
    assert!(!m.can_undo("a"));
    assert!(m.undo("a").is_none());
    m.snapshot("a", "1", "t1");
    m.snapshot("b", "2", "t2");
    m.snapshot("a", "3", "t3");
    assert!(m.can_undo("a"));
    let e = m.undo("a").unwrap();
    assert_eq!((e.file_path.as_str(), e.backup_path.as_str(), e.timestamp.as_str()), ("a", "3", "t3"));
    let left: Vec<String> = m.list_snapshots().into_iter().map(|e| e.backup_path).collect();
    assert_eq!(left, vec!["1", "2"]);
    assert_eq!(m.undo("a").unwrap().backup_path, "1");
    assert!(m.undo("a").is_none());
    assert!(m.can_undo("b"));
}

const NONE: StatusFlags = StatusFlags {
    index_new: false,
    wt_new: false,
    index_modified: false,
    wt_modified: false,
    index_deleted: false,
    wt_deleted: false,
    other: false,
};

#[test]
fn changed_files_are_listed() {
    let e = |p: &str, f: StatusFlags| (p.to_string(), f);
    let lines = status(&vec![
        e("same", NONE),
        e("a", StatusFlags { wt_new: true, wt_modified: true, ..NONE }),
        e("b", StatusFlags { index_modified: true, ..NONE }),
        e("c", StatusFlags { wt_deleted: true, ..NONE }),
        e("d", StatusFlags { other: true, ..NONE }),
    ]);
    assert_eq!(lines, vec!["+ a", "~ b", "- c", "? d"]);
}

#[test]
fn diffs_list_files_and_lines() {
    let line = |origin: char, s: &[u8]| DiffLine { origin, content: s.to_vec() };
    let files = vec![
        (FileChange::Added, "a".to_string()),
        (FileChange::Deleted, "b".to_string()),
        (FileChange::Modified, "c".to_string()),
        (FileChange::Other, "d".to_string()),
    ];
    let lines = vec![
        line('+', b"new  \n"),
        line(' ', b"same\n"),
        line('-', b"old\n"),
        line('+', b"\xff\n"),
    ];
    assert_eq!(format_diff(&files, &lines), "+ a\n- b\n~ c\n  d\n+new\n-old\n");
    assert_eq!(log_line("0123456789", "first line"), "01234567 first line");
    assert_eq!(log_line("abc", ""), "abc ");
    assert_eq!(reset_text(Some("abc")), "reset to abc");
    assert_eq!(reset_text(None), "reset to initial state");
}
