use agent_engine::agent::{
    agent_def_for, builtin_agents, extract_tool_result_value, summarize_value, truncate_str,
    AgentConfig, AgentKind, ProgressEvent,
};
use agent_engine::builtin::Builtin;
use agent_engine::cli::build_registry;
use agent_engine::drive::{Directive, Next, Phase, Turn, TurnEvent};
use agent_engine::json::Json;
use agent_engine::llm::LlmConfig;
use agent_engine::run::{
    diff_event, show_after, started_events, status_event, Agent, Round, RoundEnd, Run, Shown, Step,
};
use agent_engine::tool::ToolError;
use agent_engine::types::{
    ContentPart, FinishReason, LlmEvent, Message, ToolCall, ToolContent, ToolOutput,
    ToolResultValue, Usage,
};

fn agent(max_iterations: u32, max_tokens: u64) -> Agent<Builtin> {
    let config = AgentConfig {
        kind: AgentKind::Build,
        max_iterations,
        max_tokens,
        compact_threshold_percent: 75,
        system_prompt: "sys".to_string(),
    };
    Agent::new(config, LlmConfig::default(), build_registry(AgentKind::Build, &vec![], false))
}

fn call(name: &str, input: &str) -> ToolCall {
    ToolCall {
        id: "c".to_string(),
        name: name.to_string(),
        input: Json::parse(input).unwrap(),
    }
}

fn round(text: &str, calls: Vec<ToolCall>) -> Round {
    let mut r = Round::new();
    r.text = text.to_string();
    r.calls = calls;
    r.should_stop = true;
    r
}

fn delta(text: &str) -> LlmEvent {
    LlmEvent::TextDelta { id: "t".to_string(), text: text.to_string() }
}

fn tokens(n: u64) -> Usage {
    Usage {
        input_tokens: n,
        output_tokens: 0,
        cache_read_input_tokens: None,
        cache_write_input_tokens: None,
    }
}

fn ok(text: &str) -> Result<ToolOutput, ToolError> {
    Ok(ToolOutput { content: vec![ToolContent::Text { text: text.to_string() }] })
}

#[test]
fn kinds_have_definitions() {
    let all = builtin_agents();
    assert_eq!(all.len(), 3);
    assert_eq!(all[1].name, "plan");
    assert_eq!(all[0].default_allowed, vec!["*"]);
    assert!(agent_def_for(AgentKind::Build).system_prompt.starts_with("You are a full-access coding agent on macOS.\n"));
    assert!(agent_def_for(AgentKind::General).ask_patterns.is_empty());
    assert_eq!(AgentKind::General.name(), "general");
    let c = AgentConfig::default();
    assert_eq!((c.max_iterations, c.max_tokens, c.compact_threshold_percent), (25, 128_000, 75));
    assert_eq!(c.system_prompt, agent_def_for(AgentKind::Build).system_prompt);
}

#[test]
fn texts_are_shortened_between_characters() {
    assert_eq!(truncate_str("hello", 5), "hello");
    assert_eq!(truncate_str("hello", 3), "hel...");
    assert_eq!(truncate_str("日本", 4), "日...");
    assert_eq!(truncate_str("日本", 2), "...");
}

#[test]
fn inputs_are_summed_up() {
    let s = |v: &str| summarize_value(&Json::parse(v).unwrap(), 80);
    assert_eq!(s("{\"path\":\"p\",\"command\":\"c\"}"), "c");
    assert_eq!(s("{\"url\":\"u\",\"path\":\"p\"}"), "p");
    assert_eq!(s("{\"expression\":\"e\",\"query\":\"q\"}"), "e");
    assert_eq!(s("{\"query\":\"q\",\"url\":\"u\"}"), "q");
    assert_eq!(s("{\"url\":\"u\"}"), "u");
    assert_eq!(s("\"text\""), "text");
    assert_eq!(s("{ \"a\" : 1 }"), "{\"a\":1}");
    assert_eq!(s("{\"command\":3,\"path\":\"p\"}"), "p");
}

#[test]
fn outputs_become_one_text() {
    let output = ToolOutput {
        content: vec![
            ToolContent::Text { text: "a".to_string() },
            ToolContent::File { uri: "u".to_string(), mime: "m".to_string(), name: None },
        ],
    };
    assert!(matches!(
        extract_tool_result_value(&output),
        ToolResultValue::Text { value } if value == "a\n[File: u]"
    ));
}

#[test]
fn replies_are_what_was_streamed() {
    let mut r = Round::new();
    let mut used = Usage::default();
    assert!(matches!(r.observe(&mut used, delta("a")), Ok(Some(ProgressEvent::Token { text })) if text == "a"));
    let why = LlmEvent::ReasoningDelta { id: "r".to_string(), text: "w".to_string() };
    assert!(matches!(r.observe(&mut used, why), Ok(Some(ProgressEvent::ReasoningToken { .. }))));
    let _ = r.observe(&mut used, delta("b"));
    let received = LlmEvent::ToolCallReceived {
        id: "1".to_string(),
        name: "read".to_string(),
        input: Json::null(),
    };
    assert!(matches!(r.observe(&mut used, received), Ok(None)));
    assert!(!r.should_stop);
    let step = LlmEvent::StepFinish { index: 0, reason: FinishReason::ToolCalls, usage: Some(tokens(3)) };
    let _ = r.observe(&mut used, step);
    assert!(!r.should_stop);
    let end = LlmEvent::Finish { reason: FinishReason::ToolCalls, usage: Some(tokens(3)) };
    let _ = r.observe(&mut used, end);
    assert!(r.should_stop);
    assert_eq!((r.text.as_str(), r.reasoning.as_str()), ("ab", "w"));
    assert_eq!(r.calls.len(), 1);
    assert_eq!(used.input_tokens, 3);
    assert!(matches!(r.finish_reason, FinishReason::ToolCalls));
}

#[test]
fn final_errors_end_the_run() {
    let mut r = Round::new();
    let mut used = Usage::default();
    let passing = LlmEvent::ProviderError { message: "m".to_string(), retryable: true };
    assert!(matches!(r.observe(&mut used, passing), Ok(None)));
    assert!(r.should_stop);
    let fatal = LlmEvent::ProviderError { message: "m".to_string(), retryable: false };
    assert!(matches!(r.observe(&mut used, fatal), Err(e) if e == "Provider error: m"));
}

#[test]
fn a_run_asks_with_its_tools() {
    let mut a = agent(2, 1000).with_storage("S".to_string());
    let (message, mut run) = a.run("hi");
    assert!(matches!(&message, Message::User { content, .. }
        if matches!(&content[0], ContentPart::Text { text } if text == "hi")));
    match a.next_step(&mut run) {
        Step::Ask { iteration, prompt } => {
            assert_eq!(iteration, 1);
            assert_eq!(prompt.system, "sys");
            assert_eq!(prompt.messages.len(), 1);
            assert_eq!(prompt.tools.len(), 13);
        }
        _ => panic!("no question"),
    }
    assert_eq!(a.tool_context().session_id, "S");
    assert_eq!(agent(1, 1).tool_context().session_id, "session_1");
    assert_eq!(agent(1, 1).tool_context().agent_id, "agent_1");
}

#[test]
fn a_run_that_uses_up_its_rounds_concludes() {
    let mut a = agent(1, 1000);
    let (_, mut run) = a.run("hi");
    run.usage = tokens(5);
    assert!(matches!(a.next_step(&mut run), Step::Ask { .. }));
    match a.next_step(&mut run) {
        Step::Conclude { prompt } => {
            assert!(prompt.system.starts_with("sys\n\n## IMPORTANT\nYou have reached the tool-call step limit (1 steps). You MUST"));
            assert!(prompt.tools.is_empty());
        }
        _ => panic!("no end"),
    }
    assert_eq!(a.total_usage.input_tokens, 0);
    let out = a.force_final_response(&run, "done".to_string(), String::new());
    assert_eq!(out.text, "done");
    assert!(out.reasoning.is_none());
    assert!(matches!(out.finish_reason, FinishReason::Length));
    assert_eq!(out.usage.unwrap().input_tokens, 5);
    assert_eq!(a.total_usage.input_tokens, 5);
    let blank = a.force_final_response(&run, " \n".to_string(), "r".to_string());
    assert!(blank.text.starts_with("Reached the 1-step tool limit before finishing."));
    assert_eq!(blank.reasoning.unwrap(), "r");
}

#[test]
fn crowded_conversations_are_compacted() {
    let mut a = agent(5, 8);
    let (_, mut run) = a.run(&"x".repeat(28));
    assert_eq!(a.context.history.current_tokens, 7);
    match a.next_step(&mut run) {
        Step::Compact { prompt } => {
            assert_eq!(prompt.system, "You are a conversation summarizer. Produce a concise summary.");
            assert!(matches!(&prompt.messages[0], Message::User { content, .. }
                if matches!(&content[0], ContentPart::Text { text }
                    if text.ends_with("Conversation has 1 messages and ~7 tokens."))));
        }
        _ => panic!("no compaction"),
    }
    assert_eq!(run.iteration, 1);
    let m = a.finish_compaction("short", "child".to_string());
    assert_eq!(a.session_id.as_deref(), Some("child"));
    assert!(matches!(&m, Message::System { content, .. }
        if content == "sys\n\n--- Conversation Summary ---\nshort"));
    assert_eq!(a.context.history.messages.len(), 1);
    assert_eq!(a.context.history.current_tokens, (3 + 31 + 5) / 4);
    let mut roomy = agent(5, 8);
    let (_, mut run) = roomy.run(&"x".repeat(24));
    assert!(matches!(roomy.next_step(&mut run), Step::Ask { .. }));
}

#[test]
fn a_reply_without_calls_ends_the_run() {
    let mut a = agent(5, 1000);
    let (_, mut run) = a.run("hi");
    let mut r = round("answer", vec![]);
    r.reasoning = "why".to_string();
    let o = a.end_round(&mut run, r);
    assert!(matches!(o.progress, Some(ProgressEvent::Done { text_len: 6, tool_count: 0 })));
    match o.end {
        RoundEnd::Done { output } => {
            assert_eq!(output.text, "answer");
            assert_eq!(output.reasoning.unwrap(), "why");
        }
        _ => panic!("no end"),
    }
    let mut open = round("x", vec![]);
    open.should_stop = false;
    assert!(matches!(a.end_round(&mut run, open).end, RoundEnd::Again));
    assert_eq!(a.context.history.messages.len(), 3);
}

#[test]
fn results_are_recorded_and_told() {
    let mut a = agent(5, 1000);
    let (_, mut run) = a.run("hi");
    let c = call("read", "{\"path\":\"f\"}");
    assert!(matches!(a.end_round(&mut run, round("", vec![c.clone()])).end, RoundEnd::Tools));
    assert_eq!(run.sterile_rounds, 1);
    let (m, p) = a.record_result(&mut run, &c, &ok("content"), 7);
    assert!(matches!(&m, Message::Tool { tool_name, result: ToolResultValue::Text { value }, .. }
        if tool_name == "read" && value == "content"));
    assert!(matches!(p, ProgressEvent::ToolCallFinished { status, error: None, ts: 7, .. } if status == "done"));
    let (m, p) = a.record_result(&mut run, &c, &Err(ToolError::NotFound("x".to_string())), 8);
    assert!(matches!(&m, Message::Tool { result: ToolResultValue::Error { value }, .. }
        if value == "Tool not found: x"));
    assert!(matches!(p, ProgressEvent::ToolCallFinished { status, error: Some(e), .. }
        if status == "error" && e == "Tool not found: x"));
    assert_eq!(run.tool_results.len(), 2);
    assert!(a.end_tools(&mut run, &vec![true, false]).is_none());
    assert_eq!((run.sterile_rounds, run.tool_error_rounds), (1, 0));
}

#[test]
fn three_rounds_of_errors_end_the_run() {
    let mut a = agent(50, 100_000);
    let (_, mut run) = a.run("hi");
    run.usage = tokens(7);
    for n in 1..4 {
        assert!(matches!(a.next_step(&mut run), Step::Ask { .. }));
        let o = a.end_round(&mut run, round("", vec![call("read", "{}")]));
        assert!(matches!(o.end, RoundEnd::Tools));
        let end = a.end_tools(&mut run, &vec![false]);
        if n < 3 {
            assert!(end.is_none());
        } else {
            let out = end.unwrap();
            assert_eq!(
                out.text,
                "I encountered repeated errors and couldn't make progress after 3 attempts."
            );
            assert!(matches!(out.finish_reason, FinishReason::Error));
            assert_eq!(out.usage.unwrap().input_tokens, 7);
            assert_eq!(a.total_usage.input_tokens, 7);
        }
    }
}

#[test]
fn six_rounds_without_text_end_the_run() {
    let mut a = agent(50, 100_000);
    let (_, mut run) = a.run("hi");
    run.usage = tokens(4);
    for _ in 1..6 {
        assert!(matches!(a.next_step(&mut run), Step::Ask { .. }));
        let o = a.end_round(&mut run, round("", vec![call("read", "{}")]));
        assert!(matches!(o.end, RoundEnd::Tools));
        assert!(a.end_tools(&mut run, &vec![true]).is_none());
    }
    match a.end_round(&mut run, round("", vec![call("read", "{}")])).end {
        RoundEnd::GaveUp { output } => {
            assert_eq!(
                output.text,
                "I encountered a loop and couldn't make progress after 6 attempts. Please try rephrasing your request."
            );
            assert!(matches!(output.finish_reason, FinishReason::Error));
            assert!(output.tool_calls.is_empty());
            assert_eq!(output.usage.unwrap().input_tokens, 4);
        }
        _ => panic!("no end"),
    }
}

#[test]
fn text_starts_the_count_of_silent_rounds_again() {
    let mut a = agent(50, 100_000);
    let (_, mut run) = a.run("hi");
    for n in 0..12 {
        let said = if n % 5 == 4 { "on it" } else { "" };
        let o = a.end_round(&mut run, round(said, vec![call("read", "{}")]));
        assert!(matches!(o.end, RoundEnd::Tools));
        assert!(a.end_tools(&mut run, &vec![true]).is_none());
    }
    assert_eq!(run.sterile_rounds, 2);
}

#[test]
fn modifiers_are_known_before_they_run() {
    let a = agent(5, 1000);
    let calls = vec![
        call("read", "{\"path\":\"r\"}"),
        call("write", "{\"path\":\"w\"}"),
        call("edit", "{}"),
        call("nothing", "{\"path\":\"n\"}"),
    ];
    assert!(a.has_modifier(&calls));
    assert!(!a.has_modifier(&vec![call("read", "{}")]));
    assert_eq!(a.snapshot_paths(&calls), vec!["w"]);
}

#[test]
fn starts_are_shown() {
    let long = format!("{{\"path\":\"{}\"}}", "p".repeat(100));
    let events = started_events(&vec![call("write", &long), call("read", &long)], 5);
    let lens: Vec<usize> = events
        .iter()
        .map(|e| match e {
            ProgressEvent::ToolCallStarted { input, ts: 5, .. } => input.len(),
            _ => panic!("no start"),
        })
        .collect();
    assert_eq!(lens, vec![100, 83]);
    assert!(diff_event(String::new()).is_none());
    assert!(matches!(diff_event("d".to_string()), Some(ProgressEvent::DiffAvailable { diff }) if diff == "d"));
    assert!(matches!(status_event("+ a".to_string(), 1), ProgressEvent::ToolCallStarted { name, input, .. }
        if name == "git status" && input == "+ a"));
}

#[test]
fn files_are_shown_after_they_changed() {
    assert!(matches!(show_after(&call("write", "{\"path\":\"p\",\"content\":\"c\"}")),
        Shown::Content { path, content } if path == "p" && content == "c"));
    assert!(matches!(show_after(&call("write", "{\"path\":\"p\"}")), Shown::Nothing));
    assert!(matches!(show_after(&call("edit", "{\"path\":\"p\"}")), Shown::Read { path } if path == "p"));
    assert!(matches!(show_after(&call("edit", "{}")), Shown::Nothing));
    assert!(matches!(show_after(&call("read", "{\"path\":\"p\"}")), Shown::Nothing));
}

#[test]
fn earlier_messages_are_loaded() {
    let mut a = agent(5, 1000);
    let m = Message::System { id: "s".to_string(), content: "12345678".to_string() };
    a.load_history(vec![m.clone(), m.clone()]);
    assert_eq!(a.context.history.messages.len(), 2);
    assert_eq!(a.context.history.current_tokens, 4);
    let run = a.run_with_messages(vec![m]);
    assert_eq!(run.iteration, 0);
    assert_eq!(a.context.history.messages.len(), 3);
}

fn directive_next(d: &Directive) -> &'static str {
    match d.next {
        Next::Decide => "decide",
        Next::Send { .. } => "send",
        Next::Listen => "listen",
        Next::Act { .. } => "act",
        Next::More => "more",
        Next::Branch { .. } => "branch",
        Next::Finished { .. } => "finished",
        Next::Failed { .. } => "failed",
        Next::Ignored => "ignored",
    }
}

fn heard(event: LlmEvent) -> TurnEvent {
    TurnEvent::Heard { event }
}

#[test]
fn turns_go_from_question_to_answer() {
    let mut a = agent(5, 1000);
    let (_, run) = a.run("hi");
    let (turn, d) = a.decide(Turn::new(run));
    assert!(matches!(d.show, Some(ProgressEvent::LlmCall { iteration: 1 })));
    assert_eq!(directive_next(&d), "send");
    let received = LlmEvent::ToolCallReceived {
        id: "c".to_string(),
        name: "read".to_string(),
        input: Json::null(),
    };
    let (turn, d) = a.advance(turn, heard(received));
    assert_eq!(directive_next(&d), "listen");
    let (turn, d) = a.advance(turn, TurnEvent::Closed);
    assert!(matches!(&d.save, Some(Message::Assistant { .. })));
    assert!(matches!(&d.next, Next::Act { calls } if calls.len() == 1));
    let (turn, d) = a.advance(turn, TurnEvent::ToolsClosed);
    assert_eq!(directive_next(&d), "ignored");
    let (turn, d) = a.advance(turn, TurnEvent::ToolDone { outcome: ok("x"), ts: 1 });
    assert!(matches!(&d.save, Some(Message::Tool { .. })));
    assert_eq!(directive_next(&d), "more");
    let (turn, d) = a.advance(turn, TurnEvent::ToolDone { outcome: ok("x"), ts: 1 });
    assert_eq!(directive_next(&d), "ignored");
    let (turn, d) = a.advance(turn, TurnEvent::ToolsClosed);
    assert!(matches!(d.show, Some(ProgressEvent::StepFinished { iteration: 1, tool_count: 1 })));
    assert_eq!(directive_next(&d), "decide");
    let (turn, _) = a.decide(turn);
    let (turn, _) = a.advance(turn, heard(delta("done")));
    let end = LlmEvent::Finish { reason: FinishReason::Stop, usage: Some(tokens(9)) };
    let (turn, _) = a.advance(turn, heard(end));
    let (turn, d) = a.advance(turn, TurnEvent::Closed);
    assert!(matches!(&d.next, Next::Finished { output }
        if output.text == "done" && output.tool_results.len() == 1 && output.usage.unwrap().input_tokens == 9));
    assert!(matches!(turn.phase, Phase::Ended));
    assert!(turn.is_orderly(5));
    let (_, d) = a.advance(turn, TurnEvent::Closed);
    assert_eq!(directive_next(&d), "ignored");
}

#[test]
fn turns_fail_on_final_errors() {
    let mut a = agent(5, 1000);
    let (_, mut run) = a.run("hi");
    run.usage = tokens(3);
    let (turn, _) = a.decide(Turn::new(run));
    let fatal = LlmEvent::ProviderError { message: "m".to_string(), retryable: false };
    let (turn, d) = a.advance(turn, heard(fatal));
    assert!(matches!(&d.next, Next::Failed { error } if error == "Provider error: m"));
    assert!(matches!(turn.phase, Phase::Ended));
    assert_eq!(a.total_usage.input_tokens, 3);
}

#[test]
fn turns_compact_and_conclude() {
    let mut a = agent(1, 8);
    let (_, run) = a.run(&"x".repeat(28));
    let (turn, d) = a.decide(Turn::new(run));
    assert_eq!(directive_next(&d), "send");
    assert!(matches!(turn.phase, Phase::Summarizing { .. }));
    let (turn, _) = a.advance(turn, heard(delta("sum")));
    let paid = LlmEvent::Finish { reason: FinishReason::Stop, usage: Some(tokens(2)) };
    let (turn, _) = a.advance(turn, heard(paid));
    let (turn, d) = a.advance(turn, TurnEvent::Closed);
    assert!(matches!(&d.save, Some(Message::System { content, .. })
        if content == "sys\n\n--- Conversation Summary ---\nsum"));
    assert_eq!(directive_next(&d), "decide");
    let (turn, _) = a.decide(turn);
    assert!(matches!(turn.phase, Phase::Concluding { .. }));
    let (turn, d) = a.advance(turn, heard(delta("end")));
    assert!(matches!(d.show, Some(ProgressEvent::Token { .. })));
    let why = LlmEvent::ReasoningDelta { id: "r".to_string(), text: "w".to_string() };
    let (turn, _) = a.advance(turn, heard(why));
    let paid = LlmEvent::Finish { reason: FinishReason::Stop, usage: Some(tokens(5)) };
    let (turn, _) = a.advance(turn, heard(paid));
    let (_, d) = a.advance(turn, TurnEvent::Closed);
    assert!(matches!(&d.next, Next::Finished { output }
        if output.text == "end" && output.reasoning.as_deref() == Some("w")
            && output.usage.unwrap().input_tokens == 7));
    assert_eq!(a.total_usage.input_tokens, 7);
}

#[test]
fn compaction_goes_on_in_a_child_session() {
    let mut a = agent(5, 8).with_storage("S".to_string());
    let (_, run) = a.run(&"x".repeat(28));
    let (turn, _) = a.decide(Turn::new(run));
    let (turn, _) = a.advance(turn, heard(delta("sum")));
    let (turn, d) = a.advance(turn, TurnEvent::Closed);
    assert!(matches!(&d.next, Next::Branch { parent } if parent == "S"));
    assert!(d.save.is_none());
    assert_eq!(a.session_id.as_deref(), Some("S"));
    let (turn, d) = a.advance(turn, TurnEvent::Branched { child: Some("C".to_string()) });
    assert_eq!(a.session_id.as_deref(), Some("C"));
    assert_eq!(a.tool_context().session_id, "C");
    assert!(matches!(&d.save, Some(Message::System { .. })));
    assert_eq!(a.context.history.messages.len(), 1);
    assert!(matches!(turn.phase, Phase::Ready));

    let mut a = agent(5, 8).with_storage("S".to_string());
    let (_, run) = a.run(&"x".repeat(28));
    let (turn, _) = a.decide(Turn::new(run));
    let (turn, _) = a.advance(turn, TurnEvent::Closed);
    let (_, d) = a.advance(turn, TurnEvent::Branched { child: None });
    assert_eq!(a.session_id.as_deref(), Some("S"));
    assert_eq!(directive_next(&d), "decide");
}

#[test]
fn the_sixth_silent_reply_ends_the_turn() {
    let mut a = agent(50, 100_000);
    let (_, run) = a.run("hi");
    let mut turn = Turn::new(run);
    for n in 1..7 {
        let (t, d) = a.decide(turn);
        assert_eq!(directive_next(&d), "send");
        let received = LlmEvent::ToolCallReceived {
            id: "c".to_string(),
            name: "read".to_string(),
            input: Json::null(),
        };
        let (t, _) = a.advance(t, heard(received));
        let (t, d) = a.advance(t, TurnEvent::Closed);
        if n == 6 {
            assert!(matches!(&d.next, Next::Finished { output }
                if matches!(output.finish_reason, FinishReason::Error) && !output.text.is_empty()));
            assert!(matches!(t.phase, Phase::Ended));
            return;
        }
        assert_eq!(directive_next(&d), "act");
        let (t, _) = a.advance(t, TurnEvent::ToolDone { outcome: ok("x"), ts: n });
        let (t, _) = a.advance(t, TurnEvent::ToolsClosed);
        turn = t;
    }
    panic!("no end");
}

#[test]
fn a_reply_is_counted_once() {
    let mut a = agent(5, 1000);
    let (_, run) = a.run("hi");
    let (turn, _) = a.decide(Turn::new(run));
    let spent = Usage {
        input_tokens: 10,
        output_tokens: 5,
        cache_read_input_tokens: None,
        cache_write_input_tokens: None,
    };
    let (turn, _) = a.advance(turn, heard(delta("hi")));
    let step = LlmEvent::StepFinish { index: 0, reason: FinishReason::Stop, usage: Some(spent) };
    let (turn, _) = a.advance(turn, heard(step));
    let end = LlmEvent::Finish { reason: FinishReason::Stop, usage: Some(spent) };
    let (turn, _) = a.advance(turn, heard(end));
    let (_, d) = a.advance(turn, TurnEvent::Closed);
    match d.next {
        Next::Finished { output } => {
            assert_eq!(output.text, "hi");
            let used = output.usage.unwrap();
            assert_eq!((used.input_tokens, used.output_tokens), (10, 5));
        }
        _ => panic!("no end"),
    }
}

#[test]
fn turns_end_when_all_tools_fail() {
    let mut a = agent(50, 100_000);
    let (_, run) = a.run("hi");
    let mut turn = Turn::new(run);
    for n in 1..4 {
        let (t, _) = a.decide(turn);
        let received = LlmEvent::ToolCallReceived {
            id: "c".to_string(),
            name: "read".to_string(),
            input: Json::null(),
        };
        let (t, _) = a.advance(t, heard(received));
        let (t, _) = a.advance(t, TurnEvent::Closed);
        assert!(t.is_orderly(50));
        let outcome = Err(ToolError::Execution("no".to_string()));
        let (t, _) = a.advance(t, TurnEvent::ToolDone { outcome, ts: n });
        let (t, d) = a.advance(t, TurnEvent::ToolsClosed);
        assert_eq!(directive_next(&d), if n < 3 { "decide" } else { "finished" });
        turn = t;
    }
}
