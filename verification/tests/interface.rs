use agent_engine::agent::{AgentKind, AgentOutput, ProgressEvent};
use agent_engine::app_state::{
    session_label, AppState, PermissionAnswer, PermissionBridge, PermissionRequest,
};
use agent_engine::cli::{
    agent_config, choose_session, handle_slash_command, parse_agent_kind, parse_args,
    parse_command, restore_messages, show_new_session, show_session, show_switched, Command, CommandAction,
};
use agent_engine::duration::format_duration;
use agent_engine::json::Json;
use agent_engine::keys::{
    handle_key, handle_scroll_key, handle_scroll_mouse, lay_out, permission_key, report_copy,
    resolve_scroll, scroll_down, scroll_to_bottom, scroll_up, try_copy_key, Key, KeyAction, Wheel,
};
use agent_engine::storage::SessionInfo;
use agent_engine::style::{Color, Line};
use agent_engine::tui::{
    extract_tool_target, extract_tool_target_from_value, hydrate_chat_messages,
    summarize_tool_input, truncate_chars, ChatMessage,
};
use agent_engine::turn::{ActiveTurn, ToolStatus, TurnItem};
use agent_engine::types::{ContentPart, FinishReason, Message, ToolCall, ToolResultValue, Usage};
use agent_engine::view::{
    build_message_lines, cursor_position, extension_of, help_lines, input_area_height,
    input_lines, input_title, language_from_ext, permission_lines, render_tool_line, spinner_char,
    status_line, styled_diff_line, Area,
};

fn state() -> AppState {
    AppState::new("build", "0123456789")
}

fn output(text: &str, reasoning: Option<&str>) -> AgentOutput {
    AgentOutput {
        text: text.to_string(),
        reasoning: reasoning.map(|s| s.to_string()),
        tool_calls: vec![],
        tool_results: vec![],
        finish_reason: FinishReason::Stop,
        usage: None,
    }
}

fn show_item(i: &TurnItem) -> String {
    match i {
        TurnItem::Step(n) => format!("step {n}"),
        TurnItem::Tool(t) => {
            let s = match &t.status {
                ToolStatus::Running => "…".to_string(),
                ToolStatus::Done { ms } => format!("done {ms}"),
                ToolStatus::Error { msg, ms } => format!("error {msg} {ms}"),
            };
            format!("tool {} {} {s}", t.name, t.target)
        }
        TurnItem::Diff { lines } => format!("diff {}", lines.join("|")),
        TurnItem::WrittenFile { path, content } => format!("file {path} {content}"),
        TurnItem::Reasoning(s) => format!("why {s}"),
        TurnItem::Text(s) => format!("text {s}"),
    }
}

fn show(m: &ChatMessage) -> Vec<String> {
    m.items.iter().map(show_item).collect()
}

fn active(s: &AppState) -> Vec<String> {
    s.active_turn.as_ref().map(|t| t.items.iter().map(show_item).collect()).unwrap_or_default()
}

fn plain(line: &Line) -> String {
    line.spans.iter().map(|s| s.text.as_str()).collect()
}

fn token(s: &str) -> ProgressEvent {
    ProgressEvent::Token { text: s.to_string() }
}

fn started(name: &str, input: &str, ts: i64) -> ProgressEvent {
    ProgressEvent::ToolCallStarted { name: name.to_string(), input: input.to_string(), ts }
}

fn finished(name: &str, error: Option<&str>, ts: i64) -> ProgressEvent {
    ProgressEvent::ToolCallFinished {
        name: name.to_string(),
        status: if error.is_some() { "error" } else { "done" }.to_string(),
        error: error.map(|s| s.to_string()),
        ts,
    }
}

#[test]
fn turns_follow_the_run() {
    let mut s = state();
    s.begin_turn();
    assert!(s.thinking);
    for e in [
        ProgressEvent::LlmCall { iteration: 1 },
        token("Hel"),
        token("lo"),
        token(""),
        ProgressEvent::ReasoningToken { text: "a".to_string() },
        ProgressEvent::ReasoningToken { text: "b".to_string() },
        ProgressEvent::LlmCall { iteration: 2 },
        started("read", "src/a.rs", 100),
        started("bash", "ls", 100),
        finished("read", None, 350),
        finished("bash", Some("no"), 150),
        finished("bash", None, 200),
        ProgressEvent::ContentWritten { path: "p".to_string(), content: "1".to_string() },
        ProgressEvent::ContentWritten { path: "p".to_string(), content: "2".to_string() },
        ProgressEvent::StepFinished { iteration: 2, tool_count: 2 },
    ] {
        s.apply_progress(&e);
    }
    assert_eq!(
        active(&s),
        vec![
            "text Hello",
            "why ab",
            "step 2",
            "tool read src/a.rs done 250",
            "tool bash ls error no 50",
            "file p 2",
        ]
    );
    assert!(s.tool_starts.is_empty());
}

#[test]
fn diffs_are_shown_in_part() {
    let mut t = ActiveTurn::new();
    t.push_diff("+++ b\n--- a\n@@ -1 +1 @@\n+new\n-old\n same\n~ mod\n\\ No newline\nother\n");
    assert_eq!(
        show_item(&t.items[0]),
        "diff ~@@ -1 +1 @@|+new|-old| same|~ mod| \\ No newline"
    );
    t.push_diff("other\n");
    assert_eq!(t.items.len(), 1);
    t.push_diff(&"+x\n".repeat(203));
    match &t.items[1] {
        TurnItem::Diff { lines } => {
            assert_eq!(lines.len(), 201);
            assert_eq!(lines[200], "… (3 more diff lines)");
        }
        _ => panic!("no diff"),
    }
}

#[test]
fn replies_close_the_turn() {
    let mut s = state();
    s.begin_turn();
    s.apply_progress(&token("Hel"));
    let mut o = output("Hello", Some("why"));
    o.usage = Some(Usage {
        input_tokens: 3,
        output_tokens: 4,
        cache_read_input_tokens: Some(2),
        cache_write_input_tokens: None,
    });
    s.add_agent_message(&o);
    assert_eq!(show(&s.messages[0]), vec!["why why", "text Hello"]);
    assert_eq!(s.messages[0].usage.as_deref(), Some("3↑ 4↓ cache:2"));
    assert_eq!((s.usage_in, s.usage_out, s.usage_cache), (3, 4, 2));
    assert!(!s.thinking && s.active_turn.is_none());
}

#[test]
fn replies_are_shown_once() {
    let mut s = state();
    s.begin_turn();
    s.apply_progress(&token("Before. The end.\n"));
    s.add_agent_message(&output("The end.", None));
    assert_eq!(show(&s.messages[0]), vec!["text Before. The end.\n"]);
    s.begin_turn();
    s.apply_progress(&token("First"));
    s.apply_progress(&started("read", "x", 1));
    s.add_agent_message(&output("Second", None));
    assert_eq!(show(&s.messages[1]), vec!["text First", "tool read x …", "text Second"]);
    s.add_agent_message(&output("", None));
    assert_eq!(show(&s.messages[2]), vec!["text (no response)"]);
    s.add_agent_message(&output("  ", None));
    assert_eq!(show(&s.messages[3]), vec!["text   "]);
}

#[test]
fn errors_close_the_turn() {
    let mut s = state();
    s.begin_turn();
    s.apply_progress(&token("x"));
    s.push_turn_error("broken");
    assert_eq!(show(&s.messages[0]), vec!["text x", "text ✘ broken"]);
    assert!(!s.thinking);
    s.push_turn_error("again");
    assert_eq!(show(&s.messages[1]), vec!["text ✘ again"]);
    s.clear_conversation();
    assert!(s.messages.is_empty());
}

#[test]
fn stored_sessions_become_transcripts() {
    let s = |t: &str| t.to_string();
    let messages = vec![
        Message::System { id: s("0"), content: s("") },
        Message::User {
            id: s("1"),
            content: vec![
                ContentPart::Text { text: s("hi") },
                ContentPart::File { uri: s("u"), mime: s("m") },
            ],
        },
        Message::Assistant {
            id: s("2"),
            content: vec![ContentPart::Reasoning { text: s("r") }, ContentPart::Text { text: s("") }],
            tool_calls: vec![
                ToolCall { id: s("a"), name: s("read"), input: Json::parse("{\"path\":\"x\"}").unwrap() },
                ToolCall { id: s("b"), name: s("bash"), input: Json::parse("{\"command\":\"ls\"}").unwrap() },
            ],
        },
        Message::Tool {
            id: s("3"),
            tool_call_id: s("a"),
            tool_name: s("read"),
            result: ToolResultValue::Text { value: s("c") },
        },
        Message::Tool {
            id: s("4"),
            tool_call_id: s("b"),
            tool_name: s("bash"),
            result: ToolResultValue::Error { value: s("no") },
        },
        Message::Assistant {
            id: s("5"),
            content: vec![ContentPart::Text { text: s("done") }],
            tool_calls: vec![],
        },
        Message::System { id: s("6"), content: s("note") },
        Message::Assistant { id: s("7"), content: vec![], tool_calls: vec![] },
    ];
    let chat = hydrate_chat_messages(&messages);
    let roles: Vec<&str> = chat.iter().map(|m| m.role.as_str()).collect();
    assert_eq!(roles, vec!["user", "assistant", "system"]);
    assert_eq!(
        show(&chat[1]),
        vec!["why r", "tool read x done 0", "tool bash ls error no 0", "text done"]
    );
    let mut st = state();
    restore_messages(&mut st, &messages);
    let roles: Vec<&str> = st.messages.iter().map(|m| m.role.as_str()).collect();
    assert_eq!(roles, vec!["user", "assistant"]);
    assert_eq!(show(&st.messages[1]), vec!["text done"]);
}

#[test]
fn targets_are_found_in_inputs() {
    assert_eq!(extract_tool_target("read", "{\"path\":\"a\",\"command\":\"c\"}"), "c");
    assert_eq!(extract_tool_target("grep", "{\"pattern\":\"p\"}"), "p");
    assert_eq!(extract_tool_target("bash", " \"ls\" "), "ls");
    assert_eq!(extract_tool_target("write", "{\"path\":\"a.rs\",\"content\":\"..."), "a.rs");
    assert_eq!(extract_tool_target("x", "{\"command\":\"ls -l"), "ls -l");
    assert_eq!(extract_tool_target("x", "{\"path\":\"a\\"), "a\\");
    assert_eq!(extract_tool_target("x", "plain"), "plain");
    assert_eq!(extract_tool_target("x", &"y".repeat(60)), format!("{}…", "y".repeat(49)));
    let v = |s: &str| extract_tool_target_from_value(&Json::parse(s).unwrap());
    assert_eq!(v("{\"pattern\":\"p\",\"path\":\"a\"}"), "a");
    assert_eq!(v("{\"k\":1}"), "{\"k\":1}");
    let q = |s: &str| summarize_tool_input(&Json::parse(s).unwrap());
    assert_eq!(q("{\"path\":\"p\",\"command\":\"c\"}"), "p");
    assert_eq!(q("{\"command\":\"c\"}"), "c");
    assert_eq!(q("[]"), "[]");
}

#[test]
fn texts_are_clipped_by_characters() {
    assert_eq!(truncate_chars("日本語", 3), "日本語");
    assert_eq!(truncate_chars("日本語", 2), "日…");
    assert_eq!(truncate_chars("abc", 0), "…");
}

#[test]
fn labels_are_eight_bytes() {
    assert_eq!(session_label("0123456789"), "01234567");
    assert_eq!(session_label("abc"), "abc");
    assert_eq!(state().session_label, "01234567");
}

#[test]
fn permission_is_asked_and_answered() {
    let mut b = PermissionBridge::new();
    let mut s = state();
    let first = b.ask("bash", &Json::parse("{\"command\":\"ls\"}").unwrap());
    assert_eq!((first.tool_name.as_str(), first.input_summary.as_str(), first.ticket), ("bash", "ls", 0));
    assert!(s.take_permission_request(first).is_none());
    assert!(s.has_pending_permission());
    assert_eq!(s.take_permission_request(b.ask("edit", &Json::null())), Some(0));
    assert_eq!(s.respond_permission(true), Some(PermissionAnswer { ticket: 1, allowed: true }));
    assert_eq!(s.respond_permission(true), None);
    assert_eq!(
        PermissionBridge::rule_to_save("edit", true),
        Some(("edit".to_string(), "allow".to_string()))
    );
    assert!(PermissionBridge::rule_to_save("edit", false).is_none());
}

fn ask(s: &mut AppState) {
    s.take_permission_request(PermissionRequest {
        tool_name: "bash".to_string(),
        input_summary: "ls".to_string(),
        ticket: 4,
    });
}

#[test]
fn keys_answer_questions_first() {
    let mut s = state();
    ask(&mut s);
    assert!(matches!(handle_key(&mut s, Key::Char('x'), false, false), KeyAction::Nothing));
    assert!(s.input.is_empty() && s.has_pending_permission());
    assert!(matches!(handle_key(&mut s, Key::Esc, false, false), KeyAction::Answer { answer }
        if !answer.allowed && answer.ticket == 4));
    ask(&mut s);
    assert!(matches!(permission_key(&mut s, Key::Char('Y')), KeyAction::Answer { answer } if answer.allowed));
    assert!(matches!(permission_key(&mut s, Key::Char('Y')), KeyAction::Nothing));
}

#[test]
fn keys_edit_the_input() {
    let mut s = state();
    for c in "hi日".chars() {
        handle_key(&mut s, Key::Char(c), false, false);
    }
    handle_key(&mut s, Key::Backspace, false, false);
    handle_key(&mut s, Key::Enter, false, true);
    assert_eq!(s.input, "hi\n");
    assert!(matches!(handle_key(&mut s, Key::Enter, false, false), KeyAction::Submit { input } if input == "hi"));
    assert!(s.input.is_empty());
    assert_eq!(show(&s.messages[0]), vec!["text hi"]);
    handle_key(&mut s, Key::Backspace, false, false);
    assert!(matches!(handle_key(&mut s, Key::Enter, false, false), KeyAction::Nothing));
    s.input = " /help ".to_string();
    assert!(matches!(handle_key(&mut s, Key::Enter, false, false), KeyAction::Command { input } if input == "/help"));
    assert!(matches!(handle_key(&mut s, Key::Esc, false, false), KeyAction::Quit));
    assert!(matches!(handle_key(&mut s, Key::Other, false, false), KeyAction::Nothing));
}

#[test]
fn keys_scroll_while_a_turn_runs() {
    let mut s = state();
    s.begin_turn();
    s.max_scroll = 5;
    handle_key(&mut s, Key::Up, false, false);
    assert_eq!(s.scroll, 4);
    assert!(matches!(handle_key(&mut s, Key::Char('x'), false, false), KeyAction::Nothing));
    assert!(s.input.is_empty());
    handle_key(&mut s, Key::Char('l'), true, false);
    assert_eq!(s.scroll, usize::MAX);
}

#[test]
fn the_last_reply_is_copied() {
    let mut s = state();
    assert!(matches!(handle_key(&mut s, Key::Char('y'), true, false), KeyAction::Copy { copy: Err(e) }
        if e == "nothing to copy"));
    s.add_agent_message(&output("answer", None));
    s.add_user_message("more");
    assert!(matches!(try_copy_key(&s, Key::Char('y'), true), Some(Ok(t)) if t == "answer\n"));
    assert!(try_copy_key(&s, Key::Char('y'), false).is_none());
    report_copy(&mut s, "Copied last reply", &Ok(7));
    assert_eq!(show(s.messages.last().unwrap()), vec!["text Copied last reply (7 bytes)."]);
    report_copy(&mut s, "Copied", &Err("no clipboard".to_string()));
    assert_eq!(show(s.messages.last().unwrap()), vec!["text Copy failed: no clipboard"]);
}

#[test]
fn transcripts_are_exported() {
    let mut s = state();
    s.add_user_message("hi");
    s.begin_turn();
    for e in [
        ProgressEvent::ReasoningToken { text: "why".to_string() },
        ProgressEvent::LlmCall { iteration: 2 },
        started("read", "x", 1),
        ProgressEvent::DiffAvailable { diff: "+a\n".to_string() },
        ProgressEvent::ContentWritten { path: "p".to_string(), content: "c".to_string() },
    ] {
        s.apply_progress(&e);
    }
    let turn = "[thinking]\nwhy\n  step 2\n  read x\n[changes]\n+a\n[file: p]\nc\n";
    assert_eq!(s.export_conversation(), format!("> hi\n\n{turn}"));
    assert_eq!(s.export_last_assistant().unwrap(), turn);
    let mut o = output("end\n", None);
    o.usage = Some(Usage::default());
    s.add_agent_message(&o);
    s.add_system_message("note");
    assert_eq!(s.export_conversation(), format!("> hi\n\n{turn}end\n── 0↑ 0↓ ──\n\n[note]\n\n"));
    assert_eq!(s.copy_last_assistant().unwrap(), format!("{turn}end\n── 0↑ 0↓ ──\n"));
    assert_eq!(s.copy_conversation().unwrap(), s.export_conversation());
    assert_eq!(state().copy_conversation(), Err("nothing to copy".to_string()));
}

#[test]
fn scrolling_stays_within_the_transcript() {
    let mut s = state();
    s.max_scroll = 20;
    assert_eq!(resolve_scroll(usize::MAX, 20), 20);
    scroll_up(&mut s, 3);
    assert_eq!(s.scroll, 17);
    scroll_down(&mut s, 2);
    assert_eq!(s.scroll, 19);
    scroll_down(&mut s, 1);
    assert_eq!(s.scroll, usize::MAX);
    scroll_up(&mut s, usize::MAX);
    assert_eq!(s.scroll, 0);
    scroll_down(&mut s, usize::MAX);
    assert_eq!(s.scroll, usize::MAX);
    handle_scroll_key(&mut s, Key::PageUp, false);
    assert_eq!(s.scroll, 10);
    handle_scroll_key(&mut s, Key::Home, false);
    assert_eq!(s.scroll, 0);
    handle_scroll_key(&mut s, Key::PageDown, false);
    assert_eq!(s.scroll, 10);
    handle_scroll_key(&mut s, Key::End, false);
    assert!(handle_scroll_mouse(&mut s, Wheel::Up));
    assert_eq!(s.scroll, 17);
    assert!(handle_scroll_mouse(&mut s, Wheel::Down));
    assert!(!handle_scroll_mouse(&mut s, Wheel::Other));
    s.scroll = 15;
    assert_eq!(lay_out(&mut s, 30, 20), 10);
    assert_eq!((s.scroll, s.max_scroll), (10, 10));
    assert_eq!(lay_out(&mut s, 5, 0), 4);
    scroll_to_bottom(&mut s);
    assert_eq!(lay_out(&mut s, 100_000, 1), u16::MAX);
}

#[test]
fn durations_are_those_of_floating_point() {
    let reference = |ms: i64| {
        if ms >= 1000 {
            format!("{:.1}s", ms as f64 / 1000.0)
        } else {
            format!("{}ms", ms)
        }
    };
    for ms in -20..200_000 {
        assert_eq!(format_duration(ms), reference(ms));
    }
    let mut n: u64 = 0x9e37_79b9_7f4a_7c15;
    for _ in 0..200_000 {
        n ^= n << 13;
        n ^= n >> 7;
        n ^= n << 17;
        let ms = (n >> (1 + n % 50)) as i64;
        assert_eq!(format_duration(ms), reference(ms));
        let half = ms / 100 * 100 + 50;
        assert_eq!(format_duration(half), reference(half));
    }
    for ms in [1250, 1750, 1050, 1150, i64::MAX, i64::MIN, (1 << 53) + 1, (1 << 60) + 50] {
        assert_eq!(format_duration(ms), reference(ms));
    }
}

#[test]
fn extensions_are_those_of_paths() {
    for p in [
        "a.rs", "src/a.rs", "a", ".rs", "a.", "..", "a/..", "a.rs/", "a.rs//", "a.rs/.", "./.", ".", "",
        "/", "a.b/c", "a..rs", "...rs", "x/.b.c", "日.本", "a.rs/..", "//a.x", "./a.y", "a.rs/./",
    ] {
        let std_ext = std::path::Path::new(p).extension().and_then(|e| e.to_str());
        assert_eq!(extension_of(p).as_deref(), std_ext, "{}", p);
    }
    assert_eq!(language_from_ext("rs"), "rust");
    assert_eq!(language_from_ext("hpp"), "cpp");
    assert_eq!(language_from_ext("tsx"), "javascript");
    assert_eq!(language_from_ext("yml"), "yaml");
    assert_eq!(language_from_ext("zig"), "zig");
}

#[test]
fn messages_are_drawn() {
    let mut s = state();
    s.add_user_message("hello\nworld");
    s.begin_turn();
    s.apply_progress(&started("read", "x", 0));
    s.apply_progress(&finished("read", None, 1500));
    s.apply_progress(&ProgressEvent::ReasoningToken { text: "because".to_string() });
    s.apply_progress(&ProgressEvent::DiffAvailable { diff: "+a\n~b\n c\n".to_string() });
    s.apply_progress(&ProgressEvent::ContentWritten { path: "a.rs".to_string(), content: "x\n".to_string() });
    s.add_agent_message(&output("done", None));
    s.add_system_message("note");
    let lines: Vec<String> = build_message_lines(&s, 40).iter().map(plain).collect();
    assert_eq!(lines[..3], ["", "hello", "world"]);
    assert_eq!(lines[4], "  % read x  1.5s");
    assert_eq!(lines[5..8], ["  + Thought", "    because", ""]);
    assert_eq!(lines[8..12], ["  ┌ changes", "  │ +a", "  │ b", "  │ c"]);
    assert_eq!(lines[13], "  ✓ wrote a.rs");
    assert!(lines[14].starts_with("  ┌ rust ─"));
    assert_eq!(lines[15], "  │ x");
    assert_eq!(lines[lines.len() - 2], "  ◇ note");
    s.show_reasoning = false;
    assert_eq!(build_message_lines(&s, 40).len(), lines.len() - 3);
}

#[test]
fn long_reasoning_is_filled() {
    let mut s = state();
    s.begin_turn();
    let long = "word ".repeat(30);
    s.apply_progress(&ProgressEvent::ReasoningToken { text: long.trim().to_string() });
    let lines: Vec<String> = build_message_lines(&s, 100).iter().map(plain).collect();
    assert!(lines.len() > 4);
    for l in &lines {
        assert!(l.chars().count() <= 4 + 58);
    }
    assert_eq!(lines[1..lines.len() - 1].join(" ").split_whitespace().count(), 30);
}

#[test]
fn an_empty_screen_shows_help() {
    let mut s = state();
    let lines: Vec<String> = build_message_lines(&s, 80).iter().map(plain).collect();
    assert_eq!(lines.len(), 5);
    assert_eq!(lines[1], "  build · session 01234567");
    assert_eq!(help_lines("plan", "x").len(), 5);
    s.begin_turn();
    let lines: Vec<String> = build_message_lines(&s, 80).iter().map(plain).collect();
    assert_eq!(lines, vec!["◐ working…"]);
    s.tick();
    assert_eq!(spinner_char(s.spinner), '◓');
    assert_eq!((spinner_char(2), spinner_char(3), spinner_char(4)), ('◑', '◒', '◐'));
}

#[test]
fn user_lines_are_cut_to_the_screen() {
    let mut s = state();
    s.add_user_message("0123456789");
    assert_eq!(plain(&build_message_lines(&s, 8)[1]), "01234…");
}

#[test]
fn tool_lines_show_their_status() {
    let mut t = ActiveTurn::new();
    t.push_tool_start("bash", "ls");
    let line = |t: &ActiveTurn| match &t.items[0] {
        TurnItem::Tool(l) => render_tool_line(l),
        _ => panic!("no tool"),
    };
    assert_eq!(plain(&line(&t)), "  % bash ls …");
    t.finish_tool("bash", "error", &None, Some(12));
    assert_eq!(plain(&line(&t)), "  % bash ls  ✘ failed 12ms");
    assert_eq!(line(&t).spans[5].style.fg, Some(Color::Red));
    assert_eq!(styled_diff_line("-x").spans[0].style.fg, Some(Color::Red));
    assert_eq!(styled_diff_line("").spans[0].text, "  │ ");
}

#[test]
fn the_input_area_follows_the_input() {
    let mut s = state();
    assert_eq!(input_area_height(&s), 2);
    assert_eq!(plain(&input_lines(&s)[0]), "▌ ");
    assert_eq!(input_title(&s).text, "  Shift+Enter: newline ");
    s.input = "a\nb\nc".to_string();
    assert_eq!(input_area_height(&s), 4);
    assert_eq!(input_lines(&s).iter().map(plain).collect::<Vec<_>>(), vec!["▌ a", "  b", "  c"]);
    let area = Area { x: 1, y: 10, width: 20, height: 3 };
    assert_eq!(cursor_position(&s, area), Some((4, 12)));
    s.input = "日本".to_string();
    assert_eq!(cursor_position(&s, area), Some((7, 10)));
    s.input = "x".repeat(100);
    assert_eq!(cursor_position(&s, area), Some((20, 10)));
    s.input = "1\n2\n3\n4\n5\n6".to_string();
    assert_eq!(input_area_height(&s), 5);
    assert_eq!(cursor_position(&s, area), Some((4, 12)));
    s.begin_turn();
    assert_eq!(cursor_position(&s, area), None);
    assert_eq!(input_area_height(&s), 2);
    assert_eq!(plain(&input_lines(&s)[0]), "▌ working…  ↑↓ scroll");
    assert_eq!(input_title(&s).text, " ◐ running ");
}

#[test]
fn the_status_line_sums_up() {
    let mut s = state();
    assert_eq!(plain(&status_line(&s)), "■ build · deepseek-chat · 0↑0↓ · 01234567 · ready");
    s.max_scroll = 9;
    s.usage_cache = 3;
    assert!(plain(&status_line(&s)).contains("0↑0↓ · cache:3 · bottom"));
    s.scroll = 4;
    s.begin_turn();
    assert!(plain(&status_line(&s)).starts_with("◐ build"));
    assert!(plain(&status_line(&s)).ends_with(" · scroll 4/9 · 01234567 · running"));
    assert!(permission_lines(&s).is_none());
    ask(&mut s);
    assert!(plain(&status_line(&s)).ends_with("permission"));
    let q: Vec<String> = permission_lines(&s).unwrap().iter().map(plain).collect();
    assert_eq!(q, vec!["", "  Allow tool: bash", "", "  ls", "", "  y allow   n deny   Esc deny"]);
}

#[test]
fn arguments_are_read() {
    let args = |a: &[&str]| parse_args(&a.iter().map(|s| s.to_string()).collect());
    assert_eq!(args(&["p"]), (AgentKind::Build, false));
    assert_eq!(args(&[]), (AgentKind::Build, false));
    assert_eq!(args(&["p", "-a", "plan", "--new"]), (AgentKind::Plan, true));
    assert_eq!(args(&["p", "--agent", "general", "-n", "x"]), (AgentKind::General, true));
    assert_eq!(args(&["p", "-a", "plan", "-a", "what"]), (AgentKind::Build, false));
    assert_eq!(args(&["p", "-a", "plan", "-a"]), (AgentKind::Build, false));
    assert_eq!(args(&["p", "-a", "-n"]), (AgentKind::Build, false));
    assert_eq!(parse_agent_kind("plan"), Some(AgentKind::Plan));
    assert_eq!(parse_agent_kind("Plan"), None);
}

#[test]
fn agents_know_their_directory() {
    let c = agent_config(AgentKind::Plan, "/w");
    assert!(c.system_prompt.contains("\n\nWORKSPACE:\n- Working directory: /w\n- Use paths RELATIVE"));
    assert_eq!((c.kind, c.max_iterations, c.max_tokens), (AgentKind::Plan, 25, 128_000));
}

fn session(id: &str, message_count: i64) -> SessionInfo {
    SessionInfo {
        id: id.to_string(),
        title: String::new(),
        model: String::new(),
        parent_id: None,
        message_count,
        input_tokens: 0,
        output_tokens: 0,
        created_at: String::new(),
        updated_at: String::new(),
    }
}

#[test]
fn the_first_session_goes_on() {
    let some = Some(vec![session("a", 2), session("b", 0)]);
    assert_eq!(choose_session(false, &some), Some(("a".to_string(), true)));
    assert_eq!(choose_session(true, &some), None);
    assert_eq!(choose_session(false, &Some(vec![])), None);
    assert_eq!(choose_session(false, &None), None);
    assert_eq!(choose_session(false, &Some(vec![session("b", 0)])), Some(("b".to_string(), false)));
}

#[test]
fn commands_are_read() {
    for q in ["/quit", "/exit", "/q"] {
        assert_eq!(parse_command(q), Command::Quit);
    }
    assert_eq!(parse_command("/copy  all"), Command::Copy { all: true });
    assert_eq!(parse_command("/copy last"), Command::Copy { all: false });
    assert_eq!(parse_command("/clear"), Command::New);
    assert_eq!(parse_command("/agent plan"), Command::Agent { kind: AgentKind::Plan });
    assert_eq!(parse_command("/agent"), Command::AgentUsage);
    assert_eq!(parse_command("/what"), Command::Unknown);
    assert_eq!(parse_command(""), Command::Unknown);
}

#[test]
fn commands_are_carried_out() {
    let mut s = state();
    assert!(matches!(handle_slash_command(&mut s, "/quit"), CommandAction::Quit));
    assert!(matches!(handle_slash_command(&mut s, "/help"), CommandAction::Nothing));
    assert!(show(s.messages.last().unwrap())[0].starts_with("text /quit · /new"));
    handle_slash_command(&mut s, "/thinking");
    assert!(!s.show_reasoning);
    assert_eq!(show(s.messages.last().unwrap()), vec!["text Thinking blocks hidden."]);
    handle_slash_command(&mut s, "/thinking");
    assert_eq!(show(s.messages.last().unwrap()), vec!["text Thinking blocks visible."]);
    assert!(matches!(handle_slash_command(&mut s, "/agent plan"), CommandAction::SwitchAgent { kind: AgentKind::Plan }));
    assert_eq!(s.agent_kind, "plan");
    show_switched(&mut s, AgentKind::Plan);
    assert_eq!(show(s.messages.last().unwrap()), vec!["text Switched to plan mode."]);
    handle_slash_command(&mut s, "/agent x");
    assert_eq!(show(s.messages.last().unwrap()), vec!["text Usage: /agent build|plan|general"]);
    handle_slash_command(&mut s, "/what now");
    assert_eq!(show(s.messages.last().unwrap()), vec!["text Unknown: /what. Try /help"]);
    assert!(matches!(handle_slash_command(&mut s, "/copy"), CommandAction::Copy { copy: Err(_) }));
    assert!(matches!(handle_slash_command(&mut s, "/copy all"), CommandAction::Copy { copy: Ok(_) }));
    assert!(matches!(handle_slash_command(&mut s, "/new"), CommandAction::NewSession));
    show_session(&mut s, "klmnopqrst");
    assert_eq!(s.session_label, "klmnopqr");
    show_new_session(&mut s, "abcdefghij");
    assert_eq!(s.session_label, "abcdefgh");
    assert_eq!(s.messages.len(), 1);
}
