use agent_engine::builtin::{
    BashTool, EditTool, GitCommitTool, GitDiffTool, GitLogTool, GitStatusTool, GlobTool, GrepTool,
    ReadTool, UndoTool, WebFetchTool, WebSearchTool, WriteTool,
};
use agent_engine::json::Json;
use agent_engine::tool::{ToolError, ToolResult};
use agent_engine::tools::{
    find_orig_position, git_failed, git_missing, normalize_whitespace, request_failed, visits,
    CommandEnd, CommandOutput, EditPlan, GrepScan,
};
use agent_engine::types::{ToolContent, ToolOutput};

fn input(s: &str) -> Json {
    Json::parse(s).unwrap()
}

fn said(r: ToolResult<ToolOutput>) -> String {
    match r {
        Ok(output) => match &output.content[0] {
            ToolContent::Text { text } => text.clone(),
            _ => panic!("no text"),
        },
        Err(e) => panic!("{}", e.to_string()),
    }
}

fn failed<T>(r: ToolResult<T>) -> String {
    match r {
        Ok(_) => panic!("no failure"),
        Err(e) => e.to_string(),
    }
}

fn edit(content: &str, old: &str, new: &str) -> ToolResult<(String, String)> {
    let plan = EditPlan { path: "f".to_string(), old: old.to_string(), new: new.to_string() };
    EditTool::apply(&plan, content).map(|e| (e.content, e.diff))
}

#[test]
fn files_are_read() {
    assert_eq!(ReadTool::plan(&input("{\"path\":\"a\"}")).ok().unwrap(), "a");
    assert_eq!(failed(ReadTool::plan(&input("{}"))), "Invalid input: path is required");
    assert_eq!(failed(ReadTool::plan(&input("{\"path\":3}"))), "Invalid input: path is required");
    assert_eq!(said(ReadTool::finish(Ok("x".to_string()))), "x");
    assert_eq!(
        failed(ReadTool::finish(Err("gone".to_string()))),
        "Tool execution failed: Read error: gone"
    );
}

#[test]
fn files_are_written() {
    let (path, content) = WriteTool::plan(&input("{\"path\":\"a\",\"content\":\"日\"}")).ok().unwrap();
    assert_eq!((path.as_str(), content.as_str()), ("a", "日"));
    assert_eq!(WriteTool::plan(&input("{\"path\":\"a\"}")).ok().unwrap().1, "");
    assert_eq!(failed(WriteTool::plan(&input("{}"))), "Invalid input: path is required");
    assert_eq!(
        said(WriteTool::finish("a", "日", Ok(()))),
        "Successfully wrote 3 bytes to a"
    );
    assert_eq!(
        failed(WriteTool::finish("a", "", Err("full".to_string()))),
        "Tool execution failed: Write error: full"
    );
}

#[test]
fn edits_need_a_path_and_a_text() {
    assert_eq!(failed(EditTool::plan(&input("{\"old\":\"a\"}"))), "Invalid input: path is required");
    assert_eq!(
        failed(EditTool::plan(&input("{\"path\":\"a\"}"))),
        "Invalid input: old string is required"
    );
    let p = EditTool::plan(&input("{\"path\":\"a\",\"old\":\"b\"}")).ok().unwrap();
    assert_eq!((p.path.as_str(), p.old.as_str(), p.new.as_str()), ("a", "b", ""));
}

#[test]
fn edits_replace_the_first_occurrence() {
    let (content, diff) = edit("one\ntwo\ntwo\nend\n", "two\n", "2\n").ok().unwrap();
    assert_eq!(content, "one\n2\ntwo\nend\n");
    assert_eq!(diff, "Edit f\n    one\n-two\n+2\n    two\n");
    let (content, _) = edit("日本語", "本", "x").ok().unwrap();
    assert_eq!(content, "日x語");
}

#[test]
fn edits_can_be_taken_back() {
    let before = "fn a() {}\nfn b() {}\n";
    let (after, _) = edit(before, "fn b()", "fn c()").ok().unwrap();
    let (again, _) = edit(&after, "fn c()", "fn b()").ok().unwrap();
    assert_eq!(again, before);
}

#[test]
fn edits_match_up_to_white_space() {
    let (content, diff) = edit("  let  x = 1;\n", "let x = 1;", "let y = 2;").ok().unwrap();
    assert_eq!(content, "  let y = 2;\n");
    assert_eq!(diff, "Edit f\n      \n-let x = 1;\n+let y = 2;\n");
    let (content, _) = edit("a\nfoo  bar\nb\n", "foo bar", "X").ok().unwrap();
    assert_eq!(content, "a\nX\nb\n");
    let (content, _) = edit("日\n\tif a {\n\t\tb\n\t}\nend\n", "if a {\n  b\n}", "c").ok().unwrap();
    assert_eq!(content, "日\n\tc\nend\n");
    let (content, _) = edit("x  y", "x y", "").ok().unwrap();
    assert_eq!(content, "");
    assert!(edit("ab\n", " \t ", "X").is_err());
}

#[test]
fn edits_without_a_match_show_the_file() {
    assert_eq!(
        failed(edit("1\n2\n3\n4\n5\n6\n", "x", "y")),
        "Tool execution failed: Could not find text in f. First 5 lines:\n1\n2\n3\n4\n5"
    );
}

#[test]
fn white_space_is_normalized() {
    assert_eq!(normalize_whitespace("  a \t b  \n\tc\n"), "a b\nc");
    assert_eq!(normalize_whitespace(""), "");
}

#[test]
fn normalized_text_has_a_place_in_the_original() {
    assert_eq!(find_orig_position("  a  b", "a"), 2);
    assert_eq!(find_orig_position("  ab \t cd", ""), 2);
    assert_eq!(find_orig_position("  ab \t cd", "ab cd"), 2);
    assert_eq!(find_orig_position("  ab \t cd", "b"), 3);
    assert_eq!(find_orig_position("  ab \t cd", "cd"), 7);
    assert_eq!(find_orig_position("日 \t 本\n x", "本\nx"), 6);
    assert_eq!(find_orig_position("ab", "c"), 0);
    assert_eq!(find_orig_position(" \n ", ""), 0);
}

#[test]
fn glob_patterns_stand_under_their_base() {
    assert_eq!(GlobTool::plan(&input("{\"pattern\":\"*.rs\"}")).ok().unwrap(), "*.rs");
    assert_eq!(
        GlobTool::plan(&input("{\"pattern\":\"*.rs\",\"base\":\"src//\"}")).ok().unwrap(),
        "src/*.rs"
    );
    assert_eq!(
        GlobTool::plan(&input("{\"pattern\":\"*.rs\",\"base\":\".\"}")).ok().unwrap(),
        "*.rs"
    );
    assert_eq!(failed(GlobTool::plan(&input("{}"))), "Invalid input: pattern is required");
    assert_eq!(said(GlobTool::finish(Ok(vec![]))), "No files found matching pattern");
    assert_eq!(said(GlobTool::finish(Ok(vec!["a".to_string(), "b".to_string()]))), "a\nb");
    assert_eq!(
        failed(GlobTool::finish(Err("bad".to_string()))),
        "Tool execution failed: Glob error: bad"
    );
}

#[test]
fn searches_check_their_expression() {
    assert_eq!(failed(GrepTool::plan(&input("{}"))), "Invalid input: pattern is required");
    assert!(failed(GrepTool::plan(&input("{\"pattern\":\"(\"}")))
        .starts_with("Invalid input: Invalid regex: regex parse error"));
    let q = GrepTool::plan(&input("{\"pattern\":\"a+\"}")).ok().unwrap();
    assert_eq!((q.pattern.as_str(), q.path.as_str()), ("a+", "."));
    assert!(q.includes("anything"));
    let q = GrepTool::plan(&input("{\"pattern\":\"a\",\"include\":\"*.rs\",\"path\":\"src\"}"))
        .ok()
        .unwrap();
    assert!(q.includes("lib.rs") && !q.includes("lib.py"));
    assert_eq!(q.path, "src");
    let q = GrepTool::plan(&input("{\"pattern\":\"a\",\"include\":\"[\"}")).ok().unwrap();
    assert!(q.includes("lib.py"));
}

#[test]
fn searches_leave_hidden_files_out() {
    assert!(visits("src", false));
    assert!(!visits(".git", false));
    assert!(!visits("node_modules", false));
    assert!(visits(".", true));
}

#[test]
fn searches_list_matching_lines() {
    let mut s = GrepScan::new();
    assert!(s.count_file());
    s.scan("t[wh]", "f.txt", "one\n  two  \nthree\n");
    assert_eq!(s.results, vec!["f.txt:2:two", "f.txt:3:three"]);
    assert_eq!(
        said(s.finish("dir")),
        "Searched 1 files in dir\n2 matches:\nf.txt:2:two\nf.txt:3:three"
    );
    assert_eq!(said(GrepScan::new().finish(".")), "Searched 0 files in .\nNo matches found.");
}

#[test]
fn searches_stop_at_their_limit() {
    let mut s = GrepScan::new();
    let many = "x\n".repeat(150);
    s.count_file();
    s.scan("x", "a", &many);
    assert!(s.count_file());
    s.scan("x", "b", &many);
    assert_eq!(s.results.len(), 200);
    assert_eq!(s.results[199], "b:50:x");
    assert!(!s.count_file());
    assert_eq!(s.total_files, 3);
}

#[test]
fn commands_have_a_time_limit() {
    let (c, t) = BashTool::plan(&input("{\"command\":\"ls\"}")).ok().unwrap();
    assert_eq!((c.as_str(), t), ("ls", 30000));
    assert_eq!(BashTool::plan(&input("{\"command\":\"ls\",\"timeout\":5}")).ok().unwrap().1, 5);
    assert_eq!(failed(BashTool::plan(&input("{}"))), "Invalid input: command is required");
    assert_eq!(
        failed(BashTool::finish(&CommandEnd::TimedOut)),
        "Tool execution failed: Command timed out"
    );
    assert_eq!(
        failed(BashTool::finish(&CommandEnd::NotStarted { error: "no sh".to_string() })),
        "Tool execution failed: Failed to execute command: no sh"
    );
}

fn finished(stdout: &[u8], stderr: &[u8], success: bool, code: Option<i32>) -> String {
    said(BashTool::finish(&CommandEnd::Finished {
        output: CommandOutput { stdout: stdout.to_vec(), stderr: stderr.to_vec(), success, code },
    }))
}

#[test]
fn commands_answer_with_what_they_print() {
    assert_eq!(finished(b"hi", b"", true, Some(0)), "hi");
    assert_eq!(finished(b"", b"", true, Some(0)), "Command completed successfully (exit code 0)");
    assert_eq!(finished(b"hi", b"no", true, Some(0)), "hi\nSTDERR:\nno");
    assert_eq!(finished(b"", b"no", false, Some(2)), "Command exited with code 2:\nSTDERR:\nno");
    assert_eq!(finished(b"", b"", false, None), "Command exited with code -1:\n");
    assert_eq!(finished(b"a\xffb", b"", true, Some(0)), "a\u{fffd}b");
}

#[test]
fn pages_are_cut() {
    assert_eq!(WebFetchTool::plan(&input("{\"url\":\"u\"}")).ok().unwrap(), "u");
    assert_eq!(failed(WebFetchTool::plan(&input("{}"))), "Invalid input: url is required");
    assert_eq!(said(WebFetchTool::finish(200, "body")), "HTTP 200:\nbody");
    let long = "x".repeat(102_401);
    let shown = said(WebFetchTool::finish(404, &long));
    assert!(shown.starts_with("HTTP 404:\nxxx"));
    assert!(shown.ends_with("x...\n[Response truncated at 102400 bytes]"));
    assert_eq!(shown.len(), "HTTP 404:\n".len() + 102_400 + "...\n[Response truncated at 102400 bytes]".len());
    let wide = format!("{}日", "x".repeat(102_399));
    assert!(said(WebFetchTool::finish(200, &wide)).ends_with("x...\n[Response truncated at 102400 bytes]"));
}

#[test]
fn searches_of_the_web_list_results() {
    let (q, n) = WebSearchTool::plan(&input("{\"query\":\"rust\"}")).ok().unwrap();
    assert_eq!((q.as_str(), n), ("rust", 5));
    assert_eq!(WebSearchTool::plan(&input("{\"query\":\"r\",\"count\":99}")).ok().unwrap().1, 20);
    assert_eq!(failed(WebSearchTool::plan(&input("{}"))), "Invalid input: query is required");
    assert!(failed(WebSearchTool::no_key()).starts_with("Tool execution failed: SEARCH_API_KEY not set."));
    let body = input(
        "{\"organic_results\":[{\"title\":\"A\",\"link\":\"a\",\"snippet\":\"s\"},{\"snippet\":\"x\"},{\"title\":\"B\"},{\"title\":\"C\"}]}",
    );
    assert_eq!(
        said(WebSearchTool::finish("q", 3, &body)),
        "Search results for 'q':\n- [A](a) s\n- [B]() "
    );
    assert_eq!(
        said(WebSearchTool::finish("q", 3, &input("{}"))),
        "Search results for 'q':\nNo results found."
    );
    assert_eq!(
        failed(request_failed("Search request failed: ", "down")),
        "Tool execution failed: Search request failed: down"
    );
}

#[test]
fn git_tools_answer() {
    assert_eq!(GitCommitTool::plan(&input("{\"message\":\"m\"}")), "m");
    assert_eq!(GitCommitTool::plan(&input("{}")), "");
    assert_eq!(said(GitCommitTool::finish("0123456789abcdef")), "Committed: 01234567");
    assert_eq!(said(GitStatusTool::finish(&vec![])), "Clean working tree");
    assert_eq!(said(GitStatusTool::finish(&vec!["+ a".to_string(), "- b".to_string()])), "+ a\n- b");
    assert_eq!(said(GitDiffTool::finish("")), "No changes");
    assert_eq!(said(GitDiffTool::finish("d")), "d");
    assert_eq!(GitLogTool::plan(&input("{}")), 5);
    assert_eq!(GitLogTool::plan(&input("{\"count\":30}")), 20);
    assert_eq!(GitLogTool::plan(&input("{\"count\":3}")), 3);
    assert_eq!(said(GitLogTool::finish(&vec![])), "No commits yet");
    assert_eq!(failed(git_missing()), "Tool execution failed: Git not initialized");
    assert_eq!(failed(git_failed("x")), "Tool execution failed: x");
}

#[test]
fn undo_answers() {
    assert_eq!(UndoTool::plan(&input("{\"path\":\"a\"}")).ok().unwrap(), "a");
    assert!(matches!(UndoTool::plan(&input("{}")), Err(ToolError::InvalidInput(_))));
    assert_eq!(said(UndoTool::finish("a", Some(Ok(true)))), "Restored previous version of a");
    assert_eq!(
        failed(UndoTool::finish("a", Some(Ok(false)))),
        "Tool execution failed: No snapshot found for a"
    );
    assert_eq!(
        failed(UndoTool::finish("a", Some(Err("x".to_string())))),
        "Tool execution failed: Undo failed: x"
    );
    assert_eq!(
        failed(UndoTool::finish("a", None)),
        "Tool execution failed: Snapshot manager not available (no session)"
    );
}
