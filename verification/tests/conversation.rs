use agent_engine::context::ContextManager;
use agent_engine::json::Json;
use agent_engine::types::{
    estimate_tokens, ContentPart, Message, MessageHistory, ToolCall, ToolResultValue, Usage,
};

fn text(s: &str) -> ContentPart {
    ContentPart::Text { text: s.to_string() }
}

fn system(s: &str) -> Message {
    Message::System { id: "s".to_string(), content: s.to_string() }
}

fn usage(input: u64, output: u64, read: Option<u64>, write: Option<u64>) -> Usage {
    Usage {
        input_tokens: input,
        output_tokens: output,
        cache_read_input_tokens: read,
        cache_write_input_tokens: write,
    }
}

fn merge(a: Usage, b: Usage) -> Usage {
    let mut r = a;
    r.merge(&b);
    r
}

#[test]
fn usage_is_summed() {
    let r = merge(usage(1, 2, None, Some(4)), usage(10, 20, Some(30), None));
    assert_eq!(r, usage(11, 22, Some(30), Some(4)));
    assert_eq!(merge(Usage::default(), Usage::default()), usage(0, 0, Some(0), Some(0)));
    assert_eq!(merge(usage(u64::MAX, 0, None, None), usage(1, 0, None, None)).input_tokens, u64::MAX);
}

#[test]
fn usage_sums_in_any_order() {
    let a = usage(1, 2, Some(3), None);
    let b = usage(5, 6, None, Some(7));
    let c = usage(8, 9, Some(1), Some(1));
    assert_eq!(merge(a, b), merge(b, a));
    assert_eq!(merge(merge(a, b), c), merge(a, merge(b, c)));
}

#[test]
fn four_bytes_are_a_token() {
    assert_eq!(estimate_tokens(&system("12345678")), 2);
    assert_eq!(estimate_tokens(&system("1234567")), 1);
    assert_eq!(estimate_tokens(&system("日本")), 1);
    let user = Message::User {
        id: "u".to_string(),
        content: vec![
            text("abcd"),
            ContentPart::Reasoning { text: "abcd".to_string() },
            ContentPart::File { uri: "abcd".to_string(), mime: "x".to_string() },
        ],
    };
    assert_eq!(estimate_tokens(&user), 3);
    let assistant = Message::Assistant {
        id: "a".to_string(),
        content: vec![text("abcd"), ContentPart::Reasoning { text: "abcdefgh".to_string() }],
        tool_calls: vec![ToolCall {
            id: "1".to_string(),
            name: "read".to_string(),
            input: Json::parse("{ \"a\" : 1 }").unwrap(),
        }],
    };
    assert_eq!(estimate_tokens(&assistant), (4 + "{\"a\":1}".len() as u64) / 4);
    let tool = Message::Tool {
        id: "t".to_string(),
        tool_call_id: "1".to_string(),
        tool_name: "read".to_string(),
        result: ToolResultValue::Error { value: "12345678".to_string() },
    };
    assert_eq!(estimate_tokens(&tool), 2);
}

#[test]
fn history_counts_its_messages() {
    let mut h = MessageHistory::new(3);
    assert!(!h.is_overflow());
    h.push(system("12345678"));
    h.push(system("1234"));
    assert_eq!(h.current_tokens, 3);
    assert!(!h.is_overflow());
    h.push(system("1234"));
    assert!(h.is_overflow());
    assert_eq!(h.messages.len(), 3);
    assert_eq!(h.messages[2].id(), "s");
    assert_eq!(h.messages[2].role_str(), "system");
}

#[test]
fn messages_are_sent_under_their_roles() {
    let mut h = MessageHistory::new(1000);
    h.push(system("be kind"));
    h.push(Message::User {
        id: "u".to_string(),
        content: vec![
            text("hi"),
            ContentPart::Reasoning { text: "secret".to_string() },
            ContentPart::File { uri: "f".to_string(), mime: "m".to_string() },
        ],
    });
    h.push(Message::Assistant {
        id: "a".to_string(),
        content: vec![text("a"), ContentPart::Reasoning { text: "r".to_string() }, text("b")],
        tool_calls: vec![ToolCall {
            id: "c1".to_string(),
            name: "read".to_string(),
            input: Json::parse("{\"path\":\"x\"}").unwrap(),
        }],
    });
    h.push(Message::Tool {
        id: "t".to_string(),
        tool_call_id: "c1".to_string(),
        tool_name: "read".to_string(),
        result: ToolResultValue::Error { value: "no".to_string() },
    });
    let sent: Vec<String> = h
        .as_llm_messages()
        .iter()
        .map(|fields| Json::object(fields).text)
        .collect();
    assert_eq!(sent[0], "{\"content\":\"be kind\",\"role\":\"system\"}");
    assert_eq!(
        sent[1],
        "{\"content\":[{\"text\":\"hi\",\"type\":\"text\"},{},{\"mime\":\"m\",\"type\":\"file\",\"uri\":\"f\"}],\"role\":\"user\"}"
    );
    assert_eq!(
        sent[2],
        "{\"content\":\"ab\",\"role\":\"assistant\",\"tool_calls\":[{\"function\":{\"arguments\":\"{\\\"path\\\":\\\"x\\\"}\",\"name\":\"read\"},\"id\":\"c1\",\"type\":\"function\"}]}"
    );
    assert_eq!(
        sent[3],
        "{\"content\":\"Error: no\",\"role\":\"tool\",\"tool_call_id\":\"c1\"}"
    );
}

#[test]
fn a_reply_without_calls_has_no_call_field() {
    let mut h = MessageHistory::new(1000);
    h.push(Message::Assistant { id: "a".to_string(), content: vec![], tool_calls: vec![] });
    let sent = h.as_llm_messages();
    assert_eq!(sent[0].len(), 2);
}

#[test]
fn calls_are_read_from_json() {
    let v = Json::parse("{\"id\":\"1\",\"name\":\"read\",\"input\":{\"b\":1,\"a\":[]}}").unwrap();
    let call = ToolCall::from_json_value(&v).unwrap();
    assert_eq!((call.id.as_str(), call.name.as_str()), ("1", "read"));
    assert_eq!(call.input.text, "{\"a\":[],\"b\":1}");
    let bare = Json::parse("{\"id\":\"1\",\"name\":\"read\"}").unwrap();
    assert_eq!(ToolCall::from_json_value(&bare).unwrap().input.text, "null");
    assert!(ToolCall::from_json_value(&Json::parse("{\"id\":1,\"name\":\"x\"}").unwrap()).is_none());
    assert!(ToolCall::from_json_value(&Json::parse("{\"id\":\"1\"}").unwrap()).is_none());
}

#[test]
fn long_tool_output_is_cut() {
    let mut c = ContextManager::new("sys".to_string(), 1000);
    assert_eq!(c.max_tool_output_chars, 50_000);
    let long = "x".repeat(50_001);
    c.add_tool_result("1".to_string(), "read".to_string(), ToolResultValue::Text { value: long });
    match &c.history.messages[0] {
        Message::Tool { result: ToolResultValue::Text { value }, .. } => {
            assert_eq!(value.len(), 50_000 + "...[output truncated at 50000 chars]".len());
            assert!(value.ends_with("x...[output truncated at 50000 chars]"));
        }
        _ => panic!("no text"),
    }
    let exact = "x".repeat(50_000);
    c.add_tool_result(
        "1".to_string(),
        "read".to_string(),
        ToolResultValue::Text { value: exact.clone() },
    );
    match &c.history.messages[1] {
        Message::Tool { result: ToolResultValue::Text { value }, .. } => assert_eq!(value, &exact),
        _ => panic!("no text"),
    }
}

#[test]
fn cuts_fall_between_characters() {
    let mut c = ContextManager::new("sys".to_string(), 1000);
    c.max_tool_output_chars = 4;
    c.add_tool_result(
        "1".to_string(),
        "read".to_string(),
        ToolResultValue::Text { value: "日本語".to_string() },
    );
    match &c.history.messages[0] {
        Message::Tool { result: ToolResultValue::Text { value }, .. } => {
            assert_eq!(value, "日...[output truncated at 4 chars]");
        }
        _ => panic!("no text"),
    }
}

#[test]
fn long_json_becomes_text_and_errors_stay_whole() {
    let mut c = ContextManager::new("sys".to_string(), 1000);
    c.max_tool_output_chars = 5;
    let long = Json::parse("{\"abc\":1}").unwrap();
    let short = Json::parse("[1,2]").unwrap();
    c.add_tool_result("1".to_string(), "t".to_string(), ToolResultValue::Json { value: long });
    c.add_tool_result("1".to_string(), "t".to_string(), ToolResultValue::Json { value: short });
    c.add_tool_result(
        "1".to_string(),
        "t".to_string(),
        ToolResultValue::Error { value: "too long for it".to_string() },
    );
    assert!(matches!(
        &c.history.messages[0],
        Message::Tool { result: ToolResultValue::Text { value }, .. }
            if value == "{\"abc...[output truncated at 5 chars]"
    ));
    assert!(matches!(
        &c.history.messages[1],
        Message::Tool { result: ToolResultValue::Json { value }, .. } if value.text == "[1,2]"
    ));
    assert!(matches!(
        &c.history.messages[2],
        Message::Tool { result: ToolResultValue::Error { value }, .. } if value == "too long for it"
    ));
}

#[test]
fn messages_get_ids_of_their_own() {
    let mut c = ContextManager::new("sys".to_string(), 1000);
    let a = c.add_user_message(vec![text("hi")]);
    let b = c.add_assistant_message(String::new(), None, vec![]);
    assert_eq!(a.len(), 36);
    assert_ne!(a, b);
    assert_eq!(c.history.messages[0].id(), a);
    assert_eq!(c.history.messages[1].id(), b);
}

#[test]
fn replies_hold_reasoning_before_text() {
    let mut c = ContextManager::new("sys".to_string(), 1000);
    c.add_assistant_message("t".to_string(), Some("r".to_string()), vec![]);
    c.add_assistant_message(String::new(), Some(String::new()), vec![]);
    match &c.history.messages[0] {
        Message::Assistant { content, .. } => {
            assert_eq!(content.len(), 2);
            assert!(matches!(&content[0], ContentPart::Reasoning { text } if text == "r"));
            assert!(matches!(&content[1], ContentPart::Text { text } if text == "t"));
        }
        _ => panic!("no reply"),
    }
    match &c.history.messages[1] {
        Message::Assistant { content, .. } => assert_eq!(content.len(), 1),
        _ => panic!("no reply"),
    }
}

#[test]
fn compaction_is_due_above_three_quarters() {
    let mut c = ContextManager::new("sys".to_string(), 4);
    c.history.current_tokens = 3;
    assert!(!c.needs_compaction());
    c.history.current_tokens = 4;
    assert!(c.needs_compaction());
    assert_eq!(c.estimated_tokens(), 4);
    c.history.max_tokens = u64::MAX;
    c.history.current_tokens = u64::MAX;
    assert!(c.needs_compaction());
}

#[test]
fn requests_hold_prompt_and_messages() {
    let mut c = ContextManager::new("sys".to_string(), 1000);
    c.add_user_message(vec![text("hi")]);
    let (system, messages, tools) = c.build_request();
    assert_eq!(system, "sys");
    assert_eq!(messages.len(), 1);
    assert!(tools.is_empty());
    let copy = c.clone();
    assert_eq!(copy.history.messages[0].id(), c.history.messages[0].id());
}
