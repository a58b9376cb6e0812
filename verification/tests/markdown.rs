use agent_engine::markdown::{
    is_hr, is_rs_source_ref, is_table_row, is_table_separator, parse_blockquote, parse_fence_lang,
    parse_heading, parse_inline, parse_link_prefix, parse_list_item, parse_table_row, StyledWord,
};
use agent_engine::markdown_render::{
    pad_display, render_code_block, render_markdown, truncate_display, visible_plain,
    visible_width, wrap_inline_line, wrap_line_chunks,
};
use agent_engine::style::{Color, Line, Modifier, Style};
use agent_engine::table::{render_table, shrink_columns, table_border, table_cell_spans};

fn words(text: &str) -> Vec<StyledWord> {
    let mut out = Vec::new();
    parse_inline(text, Style::default(), &mut out);
    out
}

fn texts(text: &str) -> Vec<String> {
    words(text).into_iter().map(|w| w.text).collect()
}

fn plain(line: &Line) -> String {
    line.spans.iter().map(|s| s.text.as_str()).collect()
}

fn rendered(text: &str, width: u16) -> Vec<String> {
    let mut out = Vec::new();
    render_markdown(text, &mut out, width);
    out.iter().map(plain).collect()
}

#[test]
fn parses_table_row() {
    let cells = parse_table_row("| a | b |");
    assert_eq!(cells, vec!["a", "b"]);
}

#[test]
fn detects_heading() {
    assert_eq!(
        parse_heading("### Summary"),
        Some((3, "Summary".to_string()))
    );
}

#[test]
fn preserves_chinese_text() {
    let mut words = Vec::new();
    parse_inline("中文测试和English", Style::default(), &mut words);
    let text: String = words.iter().map(|w| w.text.as_str()).collect::<Vec<_>>().join(" ");
    assert!(text.contains("中文测试和English"));
}

#[test]
fn renders_bold_markdown() {
    let mut words = Vec::new();
    parse_inline("**核心**", Style::default(), &mut words);
    assert_eq!(words.len(), 1);
    assert_eq!(words[0].text, "核心");
    assert!(words[0].style.bold);
}

#[test]
fn rs_files_use_plain_style_not_hidden() {
    let mut words = Vec::new();
    parse_inline("`tool.rs`", Style::default().fg(Color::White), &mut words);
    assert_eq!(words.len(), 1);
    assert_eq!(words[0].text, "tool.rs");
    assert_eq!(words[0].style.fg, Some(Color::White));
}

#[test]
fn code_has_a_color_of_its_own() {
    let w = words("run `cargo test` now");
    assert_eq!(w.len(), 4);
    assert_eq!(w[1].text, "cargo");
    assert_eq!(w[1].style, Style::default().fg(Color::Yellow));
    assert_eq!(w[3].style, Style::default());
}

#[test]
fn marks_without_counterpart_are_text() {
    assert_eq!(texts("a ** b"), vec!["a", "**", "b"]);
    assert_eq!(texts("2 * 3"), vec!["2", "*", "3"]);
    assert_eq!(texts("see [x"), vec!["see", "[x"]);
    assert_eq!(texts("a ` b"), vec!["a", "`"]);
}

#[test]
fn styles_nest() {
    let w = words("**a *b* c**");
    let b = &w[1];
    assert_eq!(b.text, "b");
    assert!(b.style.bold && b.style.italic);
    assert!(w[2].style.bold && !w[2].style.italic);
}

#[test]
fn links_show_label_and_address() {
    let w = words("see [the docs](https://x.y) now");
    assert_eq!(w.len(), 4);
    assert_eq!(w[1].text, "the docs");
    assert_eq!(w[1].style.fg, Some(Color::Blue));
    assert!(w[1].style.underlined);
    assert_eq!(w[2].text, "(https://x.y)");
    assert_eq!(w[2].style.fg, Some(Color::DarkGray));
    let (link, n) = parse_link_prefix("[a](b) c").unwrap();
    assert_eq!((link.label.as_str(), link.url.as_str(), n), ("a", "b", 6));
    let (link, n) = parse_link_prefix("[日本](é)!").unwrap();
    assert_eq!((link.label.as_str(), link.url.as_str(), n), ("日本", "é", 12));
    let w = words("[日本](é)! x");
    assert_eq!(w.iter().map(|w| w.text.as_str()).collect::<Vec<_>>(), ["日本", "(é)", "!", "x"]);
    assert!(parse_link_prefix("[a] (b)").is_none());
    assert!(parse_link_prefix("[a](b").is_none());
}

#[test]
fn modifiers_add_up() {
    let s = Style::default().fg(Color::Red).add_modifier(Modifier::Bold);
    assert_eq!(s.add_modifier(Modifier::Italic).fg(Color::Cyan).fg, Some(Color::Cyan));
    assert!(s.add_modifier(Modifier::Underlined).bold);
}

#[test]
fn headings_have_one_to_six_hashes() {
    assert_eq!(parse_heading("  # A"), Some((1, "A".to_string())));
    assert_eq!(parse_heading("####### A"), None);
    assert_eq!(parse_heading("A"), None);
    assert_eq!(parse_heading("###   "), None);
    assert_eq!(parse_heading("#A"), Some((1, "A".to_string())));
}

#[test]
fn lists_are_read() {
    assert_eq!(parse_list_item("- a"), Some((None, "a".to_string())));
    assert_eq!(parse_list_item("  * a"), Some((None, "a".to_string())));
    assert_eq!(parse_list_item("+ a"), Some((None, "a".to_string())));
    assert_eq!(parse_list_item("12. a"), Some((Some(12), "a".to_string())));
    assert_eq!(parse_list_item("4294967295. a"), Some((Some(4294967295), "a".to_string())));
    assert_eq!(parse_list_item("4294967296. a"), None);
    assert_eq!(parse_list_item(". a"), None);
    assert_eq!(parse_list_item("a. b"), None);
    assert_eq!(parse_list_item("-a"), None);
}

#[test]
fn quotes_rules_and_fences_are_read() {
    assert_eq!(parse_blockquote(" > hi"), Some("hi".to_string()));
    assert_eq!(parse_blockquote("hi"), None);
    assert!(is_hr(" *** ") && is_hr("-----") && is_hr("___"));
    assert!(!is_hr("--") && !is_hr("-*-"));
    assert_eq!(parse_fence_lang("```rust "), Some("rust".to_string()));
    assert_eq!(parse_fence_lang("```"), None);
    assert_eq!(parse_fence_lang("rust"), None);
}

#[test]
fn tables_are_recognized() {
    assert!(is_table_row("| a |") && is_table_row("|"));
    assert!(!is_table_row("a | b"));
    assert!(is_table_separator("|---|:-:|"));
    assert!(!is_table_separator("| a |"));
    assert!(!is_table_separator("|   |"));
    assert_eq!(parse_table_row("|| a ||b|"), vec!["a", "", "b"]);
}

#[test]
fn source_references_end_in_rs() {
    assert!(is_rs_source_ref(" src/tool.rs "));
    assert!(!is_rs_source_ref("tool.rs:3"));
}

#[test]
fn wrapping_loses_no_character() {
    let line = "日本語テキスト and some more text that is long";
    for width in 0..30 {
        let chunks = wrap_line_chunks(line, width);
        assert_eq!(chunks.concat(), line);
        if width >= 2 {
            for c in &chunks {
                assert!(visible_width(c) <= width);
            }
        }
    }
    assert_eq!(wrap_line_chunks("abcdef", 4), vec!["abcd", "ef"]);
    assert_eq!(wrap_line_chunks("日本", 1), vec!["日", "本"]);
    assert_eq!(wrap_line_chunks("", 3), vec![""]);
}

#[test]
fn wrapping_keeps_words_in_order() {
    let lines = wrap_inline_line("one two three four", 10, Style::default());
    let shown: Vec<String> = lines.iter().map(plain).collect();
    assert_eq!(shown, vec!["  one two", "  three", "  four"]);
    let empty = wrap_inline_line("", 10, Style::default());
    assert_eq!(empty.len(), 1);
    assert_eq!(plain(&empty[0]), "  ");
}

#[test]
fn wide_text_is_cut_with_an_ellipsis() {
    assert_eq!(truncate_display("hello", 5), "hello");
    assert_eq!(truncate_display("hello", 4), "hel…");
    assert_eq!(truncate_display("hello", 0), "…");
    assert_eq!(truncate_display("日本語", 4), "日…");
    assert_eq!(pad_display("ab", 4), "ab  ");
    assert_eq!(pad_display("abcd", 3), "ab…");
}

#[test]
fn marks_take_no_columns() {
    assert_eq!(visible_plain("**a** `b c`"), "a b c");
    assert_eq!(visible_width("**日本**"), 4);
}

#[test]
fn documents_are_drawn() {
    assert_eq!(
        rendered("# T\ntext\n\n---\n> q\n- i\n1. n", 20),
        vec![
            "  T", "  ─", "", "  text", "", "  ────────────────", "  │ q", "  •  i", "  1. n",
        ]
    );
}

#[test]
fn code_blocks_are_framed() {
    let shown = rendered("```rust\nlet a = 1;\n```", 40);
    assert_eq!(shown.len(), 4);
    assert!(shown[0].starts_with("  ┌ rust ───"));
    assert_eq!(shown[1], "  │ let a = 1;");
    assert!(shown[2].starts_with("  └──"));
    assert_eq!(shown[3], "");
    let open = rendered("```\nx", 40);
    assert!(open[0].starts_with("  ┌ code ─"));
    assert_eq!(open[1], "  │ x");
    let mut out = Vec::new();
    render_code_block(&Some(String::new()), &vec!["abcdef".to_string()], &mut out, 10);
    assert_eq!(plain(&out[1]), "  │ abcd");
    assert_eq!(plain(&out[2]), "  │ ef");
}

#[test]
fn tables_are_drawn() {
    let shown = rendered("| a | b |\n|---|---|\n| longer | x |", 60);
    assert_eq!(
        shown,
        vec![
            "  ┌────────┬────┐",
            "  │ a      ││ b  │",
            "  ├────────┼────┤",
            "  │ longer ││ x  │",
            "  └────────┴────┘",
            "",
        ]
    );
    let mut out = Vec::new();
    render_table(&vec![], &mut out, 10);
    assert!(out.is_empty());
    render_table(&vec![vec![]], &mut out, 10);
    assert!(out.is_empty());
}

#[test]
fn list_items_have_a_colored_mark() {
    let mut out = Vec::new();
    render_markdown("- item", &mut out, 40);
    assert_eq!(out[0].spans[0].text, "  •  ");
    assert_eq!(out[0].spans[0].style.fg, Some(Color::Cyan));
    assert_eq!(out[0].spans[1].style.fg, Some(Color::White));
}

#[test]
fn columns_shrink_to_the_budget() {
    let mut w = vec![10, 2, 30];
    shrink_columns(&mut w, 20);
    assert!(w.iter().sum::<usize>() <= 20);
    assert_eq!(w[1], 2);
    let mut narrow = vec![5, 5];
    shrink_columns(&mut narrow, 1);
    assert_eq!(narrow, vec![2, 2]);
    let mut fits = vec![3, 4];
    shrink_columns(&mut fits, 7);
    assert_eq!(fits, vec![3, 4]);
    let mut even = vec![10, 10];
    shrink_columns(&mut even, 14);
    assert_eq!(even, vec![7, 7]);
}

#[test]
fn cells_are_cut_to_their_column() {
    let (spans, used) = table_cell_spans("one two three", 8, Style::default());
    let shown: String = spans.iter().map(|s| s.text.as_str()).collect();
    assert_eq!(shown, "one two");
    assert_eq!(used, 7);
    let (spans, used) = table_cell_spans("abcdef", 4, Style::default());
    assert_eq!(spans[0].text, "abc…");
    assert_eq!(used, 4);
    assert_eq!(table_border(&vec![1, 2], '<', '+', '>'), "<───+────>");
}
