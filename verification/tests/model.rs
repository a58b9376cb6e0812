use agent_engine::json::Json;
use agent_engine::llm::{
    after_failure, is_success, status_failure, stream_failure, transport_failure, Failure,
    LlmClient, LlmConfig, Retry,
};
use agent_engine::sse::{
    read_reason, Assembly, Choice, Delta, DeltaFunction, DeltaToolCall, Frame, LineBuffer, Receiver,
    StreamChunk, StreamUsage, Wanted,
};
use agent_engine::types::{ContentPart, FinishReason, LlmEvent, Message};

fn user(s: &str) -> Message {
    Message::User {
        id: "u".to_string(),
        content: vec![ContentPart::Text { text: s.to_string() }],
    }
}

#[test]
fn providers_have_defaults() {
    let c = LlmConfig::deepseek("k".to_string());
    assert_eq!(c.base_url, "https://api.deepseek.com");
    assert_eq!(c.model, "deepseek-chat");
    assert_eq!(c.chat_path, "/v1/chat/completions");
    assert_eq!((c.temperature.as_str(), c.top_p.as_str(), c.max_tokens), ("0.0", "0.95", 4096));
    let d = LlmConfig::default();
    assert_eq!((d.api_key.as_str(), d.model.as_str()), ("", "deepseek-chat"));
    let o = LlmConfig::openai_compatible("k".to_string(), "http://h".to_string(), "m".to_string());
    assert_eq!((o.api_key.as_str(), o.base_url.as_str(), o.model.as_str()), ("k", "http://h", "m"));
    assert_eq!(o.clone().auth_header_value, "Bearer {}");
}

#[test]
fn requests_are_complete() {
    let c = LlmConfig::openai_compatible("key".to_string(), "http://h//".to_string(), "m".to_string());
    let call = LlmClient::new(c).stream_chat(&vec![user("hi")], &vec![], "sys");
    assert_eq!(call.url, "http://h/v1/chat/completions");
    assert_eq!(call.header_name, "Authorization");
    assert_eq!(call.header_value, "Bearer key");
    assert_eq!(
        call.body.text,
        "{\"max_tokens\":4096,\"messages\":[{\"content\":\"sys\",\"role\":\"system\"},{\"content\":[{\"text\":\"hi\",\"type\":\"text\"}],\"role\":\"user\"}],\"model\":\"m\",\"stream\":true,\"stream_options\":{\"include_usage\":true},\"temperature\":0.0,\"tool_choice\":null,\"tools\":null,\"top_p\":0.95}"
    );
}

#[test]
fn an_empty_prompt_is_left_out_and_tools_are_named() {
    let client = LlmClient::new(LlmConfig::default());
    let call = client.stream_chat(&vec![], &vec![Json::number(1)], "");
    assert_eq!(call.body.get("messages").unwrap().text, "[]");
    assert_eq!(call.body.get("tools").unwrap().text, "[1]");
}

#[test]
fn failures_that_may_pass_are_told_apart() {
    assert!(is_success(200) && is_success(299) && !is_success(300) && !is_success(199));
    let f = status_failure(503, "503 Service Unavailable", "busy");
    assert_eq!(f.message, "API error 503 Service Unavailable: busy");
    assert!(f.retryable);
    assert!(status_failure(429, "429 Too Many Requests", "").retryable);
    assert!(!status_failure(401, "401 Unauthorized", "").retryable);
    assert!(!status_failure(600, "600", "").retryable);
    let t = transport_failure("reset");
    assert_eq!(t.message, "HTTP request failed: reset");
    assert!(t.retryable);
    assert!(matches!(
        stream_failure("cut"),
        LlmEvent::ProviderError { message, retryable: true } if message == "Stream error: cut"
    ));
}

#[test]
fn requests_are_repeated_three_times() {
    let f = transport_failure("reset");
    let waits: Vec<u64> = (1..5)
        .filter_map(|n| match after_failure(n, &f) {
            Retry::Wait { delay_ms } => Some(delay_ms),
            Retry::GiveUp { .. } => None,
        })
        .collect();
    assert_eq!(waits, vec![1000, 2000, 4000]);
    match after_failure(4, &f) {
        Retry::GiveUp { event: LlmEvent::ProviderError { message, retryable } } => {
            assert_eq!(message, "Request failed after 4 attempt(s): HTTP request failed: reset");
            assert!(!retryable);
        }
        _ => panic!("no end"),
    }
    let refused = Failure { message: "no".to_string(), retryable: false };
    assert!(matches!(after_failure(1, &refused), Retry::GiveUp { .. }));
}

fn all_frames(pieces: &[&str]) -> (Vec<String>, String) {
    let mut b = LineBuffer::new();
    let mut out = Vec::new();
    for p in pieces {
        b.push_bytes(&p.as_bytes().to_vec());
        while let Some(f) = b.next_frame() {
            out.push(match f {
                Frame::Done => "<done>".to_string(),
                Frame::Data(d) => d,
            });
        }
    }
    (out, b.buffer)
}

#[test]
fn streams_are_cut_anywhere() {
    let stream = ": ping\n\ndata: {\"a\":1}\r\n  data: x  \nevent: y\ndata: [DONE]\ndata: rest";
    let whole = all_frames(&[stream]);
    assert_eq!(whole.0, vec!["{\"a\":1}", "x", "<done>"]);
    assert_eq!(whole.1, "data: rest");
    for i in 0..stream.len() {
        assert_eq!(all_frames(&[&stream[..i], &stream[i..]]), whole);
    }
}

#[test]
fn bytes_that_are_no_text_are_replaced() {
    let mut b = LineBuffer::new();
    b.push_bytes(&b"data: a\xff\n".to_vec());
    assert!(matches!(b.next_frame(), Some(Frame::Data(d)) if d == "a\u{fffd}"));
}

fn delta(content: Option<&str>, reasoning: Option<&str>, calls: Option<Vec<DeltaToolCall>>) -> Choice {
    Choice {
        delta: Delta {
            content: content.map(|s| s.to_string()),
            reasoning_content: reasoning.map(|s| s.to_string()),
            tool_calls: calls,
        },
        finish_reason: None,
    }
}

fn fragment(index: u64, id: Option<&str>, name: Option<&str>, args: Option<&str>) -> DeltaToolCall {
    DeltaToolCall {
        index,
        id: id.map(|s| s.to_string()),
        function: Some(DeltaFunction {
            name: name.map(|s| s.to_string()),
            arguments: args.map(|s| s.to_string()),
        }),
    }
}

fn chunk(choices: Vec<Choice>) -> StreamChunk {
    StreamChunk { choices, usage: None }
}

fn show(e: &LlmEvent) -> String {
    match e {
        LlmEvent::StepStart { index } => format!("start {index}"),
        LlmEvent::TextStart { id } => format!("text+ {id}"),
        LlmEvent::TextDelta { id, text } => format!("text {id} {text}"),
        LlmEvent::TextEnd { id } => format!("text- {id}"),
        LlmEvent::ReasoningStart { id } => format!("why+ {id}"),
        LlmEvent::ReasoningDelta { id, text } => format!("why {id} {text}"),
        LlmEvent::ReasoningEnd { id } => format!("why- {id}"),
        LlmEvent::ToolCallStart { id, name } => format!("call+ {id} {name}"),
        LlmEvent::ToolCallDelta { id, name, text } => format!("call {id} {name} {text}"),
        LlmEvent::ToolCallEnd { id, name } => format!("call- {id} {name}"),
        LlmEvent::ToolCallReceived { id, name, input } => format!("call! {id} {name} {}", input.text),
        LlmEvent::StepFinish { index, usage, .. } => format!("step- {index} {}", usage.is_some()),
        LlmEvent::Finish { usage, .. } => format!("finish {}", usage.is_some()),
        _ => "other".to_string(),
    }
}

fn shown(events: &[LlmEvent]) -> Vec<String> {
    events.iter().map(show).collect()
}

#[test]
fn text_and_reasoning_keep_their_ids() {
    let mut a = Assembly::new();
    assert_eq!(show(&Assembly::start()), "start 0");
    let events = a.on_chunk(&chunk(vec![delta(Some("Hel"), Some("hm"), None)]), "T", "R");
    assert_eq!(shown(&events), vec!["text+ T", "text T Hel", "why+ R", "why R hm"]);
    let events = a.on_chunk(&chunk(vec![delta(Some("lo"), None, None)]), "X", "Y");
    assert_eq!(shown(&events), vec!["text T lo"]);
    assert_eq!(shown(&a.finish()), vec!["text- T", "why- R", "step- 0 false", "finish false"]);
}

#[test]
fn calls_are_put_together_by_index() {
    let mut a = Assembly::new();
    let events = a.on_chunk(
        &chunk(vec![delta(
            None,
            None,
            Some(vec![
                fragment(1, Some("b"), Some("write"), Some("{\"p\"")),
                fragment(0, Some("a"), Some("read"), Some("{}")),
            ]),
        )]),
        "T",
        "R",
    );
    assert_eq!(
        shown(&events),
        vec!["call+ b write", "call b write {\"p\"", "call+ a read", "call a read {}"]
    );
    let events =
        a.on_chunk(&chunk(vec![delta(None, None, Some(vec![fragment(1, None, None, Some(":1}"))]))]), "T", "R");
    assert_eq!(shown(&events), vec!["call b write :1}"]);
    assert_eq!(
        shown(&a.finish()),
        vec![
            "call- a read",
            "call! a read {}",
            "call- b write",
            "call! b write {\"p\":1}",
            "step- 0 false",
            "finish false",
        ]
    );
}

#[test]
fn calls_without_name_or_valid_arguments() {
    let mut a = Assembly::new();
    let _ = a.on_chunk(
        &chunk(vec![delta(
            None,
            None,
            Some(vec![
                fragment(0, Some("a"), None, Some("{}")),
                fragment(1, Some("b"), Some("bash"), Some("oops")),
                DeltaToolCall { index: 2, id: None, function: None },
            ]),
        )]),
        "T",
        "R",
    );
    assert_eq!(
        shown(&a.finish()),
        vec!["call- b bash", "call! b bash \"oops\"", "step- 0 false", "finish false"]
    );
}

#[test]
fn a_reason_completes_the_reply() {
    let mut a = Assembly::new();
    let mut last = delta(Some("ignored"), None, None);
    last.finish_reason = Some("tool_calls".to_string());
    let c = StreamChunk {
        choices: vec![delta(Some("x"), None, None), last, delta(Some("late"), None, None)],
        usage: Some(StreamUsage {
            input_tokens: 5,
            output_tokens: 6,
            cache_read_input_tokens: Some(2),
        }),
    };
    let events = a.on_chunk(&c, "T", "R");
    assert_eq!(shown(&events), vec!["text+ T", "text T x", "text- T"]);
    let end = a.finish();
    assert_eq!(shown(&end), vec!["step- 0 true", "finish true"]);
    assert!(matches!(&end[1], LlmEvent::Finish { reason: FinishReason::ToolCalls, usage: Some(u) }
        if u.input_tokens == 5 && u.output_tokens == 6 && u.cache_read_input_tokens == Some(2)
            && u.cache_write_input_tokens.is_none()));
}

#[test]
fn usage_behind_the_reason_is_reported() {
    let mut r = Receiver::new();
    let mut last = delta(None, None, None);
    last.finish_reason = Some("stop".to_string());
    assert!(r.on_chunk(&chunk(vec![last])).is_empty());
    let mut late = chunk(vec![delta(Some("ignored"), None, None)]);
    late.usage = Some(StreamUsage {
        input_tokens: 10,
        output_tokens: 5,
        cache_read_input_tokens: None,
    });
    assert!(r.on_chunk(&late).is_empty());
    r.push_bytes(&b"data: [DONE]\n".to_vec());
    match r.next() {
        Wanted::Report { events } => {
            assert_eq!(shown(&events), vec!["step- 0 true", "finish true"]);
            assert!(matches!(&events[1], LlmEvent::Finish { reason: FinishReason::Stop, usage: Some(u) }
                if u.input_tokens == 10 && u.output_tokens == 5));
        }
        _ => panic!("no end"),
    }
}

#[test]
fn a_broken_stream_is_reported_unless_the_model_was_done() {
    let mut r = Receiver::new();
    let events = r.on_failure("cut");
    assert!(matches!(&events[0], LlmEvent::ProviderError { message, retryable: true }
        if message == "Stream error: cut"));
    assert!(matches!(r.next(), Wanted::Nothing));
    assert!(r.on_failure("again").is_empty());
    let mut r = Receiver::new();
    let mut last = delta(None, None, None);
    last.finish_reason = Some("length".to_string());
    assert!(r.on_chunk(&chunk(vec![last])).is_empty());
    let events = r.on_failure("cut");
    assert!(matches!(&events[1], LlmEvent::Finish { reason: FinishReason::Length, usage: None }));
}

#[test]
fn reasons_are_named() {
    assert!(matches!(read_reason("stop"), FinishReason::Stop));
    assert!(matches!(read_reason("length"), FinishReason::Length));
    assert!(matches!(read_reason("content_filter"), FinishReason::ContentFiltered));
    assert!(matches!(read_reason("tool_calls"), FinishReason::ToolCalls));
    assert!(matches!(read_reason("else"), FinishReason::Other(s) if s == "else"));
}

#[test]
fn new_text_takes_a_new_id() {
    let mut a = Assembly::new();
    let events = a.receive(&chunk(vec![delta(Some("x"), None, None)]));
    assert_eq!(a.text_id.len(), 36);
    assert_eq!(shown(&events)[0], format!("text+ {}", a.text_id));
    let before = a.text_id.clone();
    let _ = a.receive(&chunk(vec![delta(Some("y"), None, None)]));
    assert_eq!(a.text_id, before);
}

#[test]
fn replies_are_received_to_their_end() {
    let mut r = Receiver::new();
    assert!(matches!(r.next(), Wanted::Bytes));
    r.push_bytes(&b"data: one\ndata: [DONE]\ndata: late\n".to_vec());
    assert!(matches!(r.next(), Wanted::Chunk { data } if data == "one"));
    let events = r.on_chunk(&chunk(vec![delta(Some("x"), None, None)]));
    assert_eq!(events.len(), 2);
    assert!(matches!(r.next(), Wanted::Report { events } if events.len() == 3));
    assert!(matches!(r.next(), Wanted::Nothing));
    assert!(r.on_chunk(&chunk(vec![delta(Some("x"), None, None)])).is_empty());
    assert!(r.on_end().is_empty());
    let mut open = Receiver::new();
    assert_eq!(shown(&open.on_end()), vec!["step- 0 false", "finish false"]);
    assert!(matches!(open.next(), Wanted::Nothing));
}
