//! What the interface shows, line by line.
use vstd::prelude::*;
use crate::app_state::{AppState, AppView};
use crate::duration;
use crate::keys;
use crate::markdown_render;
use crate::number;
use crate::style;
use crate::style::{Color, Line, LineView, Modifier, Span, SpanView, Style};
use crate::text;
use crate::theme;
use crate::tui;
use crate::turn;
use crate::turn::{ToolLine, ToolStatus, TurnItem};
use crate::width;

verus! {

// ── File names ──

/// `path` without what stands for nothing at its end: slashes, and the
/// directory itself.
pub open spec fn tidy(path: Seq<char>) -> Seq<char>
    decreases path.len(),
{
    if path.len() > 0 && path.last() == '/' {
        tidy(path.drop_last())
    } else if path.len() > 1 && path.last() == '.' && path[path.len() - 2] == '/' {
        tidy(path.take(path.len() - 2))
    } else {
        path
    }
}

/// What follows the last `c` in `s`, all of it where there is none.
pub open spec fn after_last(s: Seq<char>, c: char) -> Seq<char>
    decreases s.len(),
{
    if s.len() == 0 || s.last() == c {
        Seq::empty()
    } else {
        after_last(s.drop_last(), c).push(s.last())
    }
}

/// The extension of the file that a path names: what follows the last dot of
/// its name, unless the name starts with it.
pub open spec fn extension(path: Seq<char>) -> Option<Seq<char>> {
    let name = after_last(tidy(path), '/');
    let ext = after_last(name, '.');
    if name == seq!['.', '.'] || ext.len() + 1 >= name.len() {
        None
    } else {
        Some(ext)
    }
}

fn name_in(path: &str) -> (r: Vec<char>)
    ensures
        r@ == after_last(tidy(path@), '/'),
{
    let v = text::chars_of(path);
    let mut n: usize = v.len();
    assert(v@.take(n as int) =~= v@);
    loop
        invariant
            n <= v@.len(),
            v@ == path@,
            tidy(v@) == tidy(v@.take(n as int)),
        decreases n,
    {
        let ghost part = v@.take(n as int);
        if n > 0 && v[n - 1] == '/' {
            assert(part.drop_last() =~= v@.take(n - 1));
            n = n - 1;
        } else if n > 1 && v[n - 1] == '.' && v[n - 2] == '/' {
            assert(part.take(n - 2) =~= v@.take(n - 2));
            n = n - 2;
        } else {
            let r = part_after(&v, n, '/');
            return r;
        }
    }
}

fn part_after(v: &Vec<char>, n: usize, c: char) -> (r: Vec<char>)
    requires
        n <= v@.len(),
    ensures
        r@ == after_last(v@.take(n as int), c),
{
    let ghost all = v@.take(n as int);
    let mut k: usize = n;
    while k > 0 && v[k - 1] != c
        invariant
            k <= n <= v@.len(),
            all == v@.take(n as int),
            after_last(all, c) == after_last(v@.take(k as int), c) + v@.subrange(k as int, n as int),
        decreases k,
    {
        let ghost part = v@.take(k as int);
        assert(part.drop_last() =~= v@.take(k - 1));
        assert(after_last(part.drop_last(), c).push(part.last()) + v@.subrange(k as int, n as int)
            =~= after_last(v@.take(k - 1), c) + v@.subrange(k - 1, n as int));
        k = k - 1;
    }
    assert(Seq::<char>::empty() + v@.subrange(k as int, n as int) =~= v@.subrange(
        k as int,
        n as int,
    ));
    text::chars_of(text::string_of(v, k, n).as_str())
}

/// The extension of the file that a path names.
pub fn extension_of(path: &str) -> (r: Option<String>)
    ensures
        r.deep_view() == extension(path@),
{
    let name = name_in(path);
    assert(name@.take(name@.len() as int) =~= name@);
    let ext = part_after(&name, name.len(), '.');
    let is_parent = name.len() == 2 && name[0] == '.' && name[1] == '.';
    assert(is_parent == (name@ =~= seq!['.', '.']));
    proof {
        lemma_after_last(name@, '.');
    }
    if is_parent || name.len() == 0 || ext.len() >= name.len() - 1 {
        None
    } else {
        Some(text::text_of(&ext))
    }
}

proof fn lemma_after_last(s: Seq<char>, c: char)
    ensures
        after_last(s, c).len() <= s.len(),
    decreases s.len(),
{
    if s.len() > 0 && s.last() != c {
        lemma_after_last(s.drop_last(), c);
    }
}

/// The language of files with an extension.
pub open spec fn language(ext: Seq<char>) -> Seq<char> {
    if ext == "rs"@ {
        "rust"@
    } else if ext == "cpp"@ || ext == "cc"@ || ext == "cxx"@ || ext == "h"@ || ext == "hpp"@ {
        "cpp"@
    } else if ext == "py"@ {
        "python"@
    } else if ext == "js"@ || ext == "ts"@ || ext == "tsx"@ {
        "javascript"@
    } else if ext == "md"@ {
        "markdown"@
    } else if ext == "sh"@ || ext == "bash"@ {
        "bash"@
    } else if ext == "json"@ {
        "json"@
    } else if ext == "toml"@ {
        "toml"@
    } else if ext == "yaml"@ || ext == "yml"@ {
        "yaml"@
    } else {
        ext
    }
}

pub fn language_from_ext(ext: &str) -> (r: String)
    ensures
        r@ == language(ext@),
{
    if text::same(ext, "rs") {
        "rust".to_owned()
    } else if text::same(ext, "cpp") || text::same(ext, "cc") || text::same(ext, "cxx")
        || text::same(ext, "h") || text::same(ext, "hpp") {
        "cpp".to_owned()
    } else if text::same(ext, "py") {
        "python".to_owned()
    } else if text::same(ext, "js") || text::same(ext, "ts") || text::same(ext, "tsx") {
        "javascript".to_owned()
    } else if text::same(ext, "md") {
        "markdown".to_owned()
    } else if text::same(ext, "sh") || text::same(ext, "bash") {
        "bash".to_owned()
    } else if text::same(ext, "json") {
        "json".to_owned()
    } else if text::same(ext, "toml") {
        "toml".to_owned()
    } else if text::same(ext, "yaml") || text::same(ext, "yml") {
        "yaml".to_owned()
    } else {
        ext.to_owned()
    }
}

// ── Turns ──

/// The line of a tool call.
pub open spec fn tool_line(t: turn::ToolLineView) -> LineView {
    let (suffix, suffix_style) = match t.status {
        turn::StatusView::Running => (" …"@, style::colored(Color::Cyan)),
        turn::StatusView::Done { ms } => (
            "  "@ + duration::shown(ms),
            style::colored(Color::DarkGray),
        ),
        turn::StatusView::Error { msg, ms } => (
            "  ✘ "@ + tui::clipped(msg, 24) + " "@ + duration::shown(ms),
            style::colored(Color::Red),
        ),
    };
    seq![
        style::unstyled("  "@),
        SpanView { text: "% "@, style: style::colored(Color::DarkGray) },
        SpanView { text: t.name, style: style::colored(Color::Cyan) },
        style::unstyled(" "@),
        SpanView { text: tui::clipped(t.target, 54), style: style::colored(Color::Gray) },
        SpanView { text: suffix, style: suffix_style },
    ]
}

pub fn render_tool_line(t: &ToolLine) -> (r: Line)
    ensures
        r.deep_view() == tool_line(t.deep_view()),
{
    let (suffix, suffix_style) = match &t.status {
        ToolStatus::Running => (" …".to_owned(), theme::tool_running()),
        ToolStatus::Done { ms } => (
            text::cat2("  ", duration::format_duration(*ms).as_str()),
            theme::muted(),
        ),
        ToolStatus::Error { msg, ms } => (
            text::cat4(
                "  ✘ ",
                tui::truncate_chars(msg.as_str(), 24).as_str(),
                " ",
                duration::format_duration(*ms).as_str(),
            ),
            theme::error(),
        ),
    };
    let spans = vec![
        Span::raw("  "),
        Span::styled("% ".to_owned(), theme::muted()),
        Span::styled(t.name.clone(), theme::status_accent()),
        Span::raw(" "),
        Span::styled(tui::truncate_chars(t.target.as_str(), 54), theme::tool()),
        Span::styled(suffix, suffix_style),
    ];
    assert(spans.deep_view() =~= tool_line(t.deep_view()));
    Line::from_spans(spans)
}

/// A line of a diff: its mark says how it is shown.
pub open spec fn diff_line(line: Seq<char>) -> LineView {
    let first = if line.len() == 0 {
        'x'
    } else {
        line[0]
    };
    if first == '+' {
        style::one_span("  │ "@ + line, style::colored(Color::Green))
    } else if first == '-' {
        style::one_span("  │ "@ + line, style::colored(Color::Red))
    } else if first == '~' {
        style::one_span("  │ "@ + line.skip(1), style::colored(Color::Yellow))
    } else if first == ' ' {
        style::one_span("  │ "@ + line.skip(1), style::colored(Color::DarkGray))
    } else {
        style::one_span("  │ "@ + line, style::colored(Color::DarkGray))
    }
}

pub fn styled_diff_line(line: &str) -> (r: Line)
    ensures
        r.deep_view() == diff_line(line@),
{
    let v = text::chars_of(line);
    let first = if v.len() == 0 {
        'x'
    } else {
        v[0]
    };
    if first == '+' {
        Line::of(text::cat2("  │ ", line), theme::success())
    } else if first == '-' {
        Line::of(text::cat2("  │ ", line), theme::error())
    } else if first == '~' || first == ' ' {
        let rest = text::string_of(&v, 1, v.len());
        assert(rest@ =~= line@.skip(1));
        let shown = text::cat2("  │ ", rest.as_str());
        if first == '~' {
            Line::of(shown, Style::default().fg(Color::Yellow))
        } else {
            Line::of(shown, theme::muted())
        }
    } else {
        Line::of(text::cat2("  │ ", line), theme::muted())
    }
}

/// The lower border of changes.
pub const DIFF_END: &'static str = "  └──────────────────────────────────";

/// The columns of reasoning.
pub const THOUGHT_WIDTH: usize = 58;

/// The lines of an entry of a timeline.
pub open spec fn item_lines(item: turn::ItemView, width: u16, show_reasoning: bool) -> Seq<LineView> {
    match item {
        turn::ItemView::Step(_) => Seq::empty(),
        turn::ItemView::Tool(t) => seq![tool_line(t)],
        turn::ItemView::Diff { lines } => seq![
            style::one_span("  ┌ changes"@, style::colored(Color::DarkGray)),
        ] + lines.map_values(|l: Seq<char>| diff_line(l)) + seq![
            style::one_span(DIFF_END@, style::colored(Color::DarkGray)),
        ],
        turn::ItemView::WrittenFile { path, content } => seq![
            seq![
                style::unstyled("  "@),
                SpanView { text: "✓ "@, style: style::colored(Color::Green) },
                SpanView { text: "wrote "@ + path, style: style::colored(Color::DarkGray) },
            ],
        ] + markdown_render::code_block(
            match extension(path) {
                Some(ext) => Some(language(ext)),
                None => None,
            },
            text::lines(content),
            width,
        ),
        turn::ItemView::Reasoning(s) => if show_reasoning && s.len() > 0 {
            seq![style::one_span("  + Thought"@, style::colored(Color::Yellow))] + text::lines(
                width::text_filled(s, THOUGHT_WIDTH),
            ).map_values(|l: Seq<char>| thought_line(l)) + seq![style::blank()]
        } else {
            Seq::empty()
        },
        turn::ItemView::Text(s) => if s.len() > 0 {
            markdown_render::document(s, width)
        } else {
            Seq::empty()
        },
    }
}

/// A line of reasoning.
pub open spec fn thought_line(line: Seq<char>) -> LineView {
    style::one_span("    "@ + line, style::colored(Color::DarkGray))
}

/// The lines of a timeline.
pub open spec fn items_lines(items: Seq<turn::ItemView>, width: u16, show_reasoning: bool) -> Seq<
    LineView,
>
    decreases items.len(),
{
    if items.len() == 0 {
        Seq::empty()
    } else {
        items_lines(items.drop_last(), width, show_reasoning) + item_lines(
            items.last(),
            width,
            show_reasoning,
        )
    }
}

fn push_diff(lines: &Vec<String>, out: &mut Vec<Line>)
    ensures
        final(out).deep_view() == old(out).deep_view() + (seq![
            style::one_span("  ┌ changes"@, style::colored(Color::DarkGray)),
        ] + lines.deep_view().map_values(|l: Seq<char>| diff_line(l)) + seq![
            style::one_span(DIFF_END@, style::colored(Color::DarkGray)),
        ]),
{
    let ghost before = out.deep_view();
    style::push_line(out, Line::of("  ┌ changes".to_owned(), theme::code_border()));
    let ghost head = out.deep_view();
    let ghost all = lines.deep_view().map_values(|l: Seq<char>| diff_line(l));
    let mut i: usize = 0;
    assert(head + all.take(0) =~= head);
    while i < lines.len()
        invariant
            i <= lines@.len(),
            all == lines.deep_view().map_values(|l: Seq<char>| diff_line(l)),
            out.deep_view() == head + all.take(i as int),
        decreases lines@.len() - i,
    {
        assert(lines.deep_view()[i as int] == lines@[i as int]@);
        let ghost held = out.deep_view();
        style::push_line(out, styled_diff_line(lines[i].as_str()));
        assert(held.push(all[i as int]) =~= head + all.take(i + 1));
        i = i + 1;
    }
    assert(all.take(i as int) =~= all);
    style::push_line(out, Line::of(DIFF_END.to_owned(), theme::code_border()));
    assert(out.deep_view() =~= before + (seq![
        style::one_span("  ┌ changes"@, style::colored(Color::DarkGray)),
    ] + all + seq![style::one_span(DIFF_END@, style::colored(Color::DarkGray))]));
}

fn push_file(path: &str, content: &str, out: &mut Vec<Line>, width: u16)
    ensures
        final(out).deep_view() == old(out).deep_view() + item_lines(
            turn::ItemView::WrittenFile { path: path@, content: content@ },
            width,
            true,
        ),
{
    let ghost before = out.deep_view();
    let spans = vec![
        Span::raw("  "),
        Span::styled("✓ ".to_owned(), theme::success()),
        Span::styled(text::cat2("wrote ", path), theme::dim()),
    ];
    let ghost head = seq![
        style::unstyled("  "@),
        SpanView { text: "✓ "@, style: style::colored(Color::Green) },
        SpanView { text: "wrote "@ + path@, style: style::colored(Color::DarkGray) },
    ];
    assert(spans.deep_view() =~= head);
    style::push_line(out, Line::from_spans(spans));
    let lang = match extension_of(path) {
        Some(ext) => Some(language_from_ext(ext.as_str())),
        None => None,
    };
    let lines = text::lines_of(content);
    markdown_render::render_code_block(&lang, &lines, out, width);
    assert(out.deep_view() =~= before + (seq![head] + markdown_render::code_block(
        lang.deep_view(),
        text::lines(content@),
        width,
    )));
}

fn push_thought(s: &str, out: &mut Vec<Line>)
    ensures
        final(out).deep_view() == old(out).deep_view() + (seq![
            style::one_span("  + Thought"@, style::colored(Color::Yellow)),
        ] + text::lines(width::text_filled(s@, THOUGHT_WIDTH)).map_values(
            |l: Seq<char>| thought_line(l),
        ) + seq![style::blank()]),
{
    let ghost before = out.deep_view();
    style::push_line(out, Line::of("  + Thought".to_owned(), theme::thought()));
    let ghost head = out.deep_view();
    let filled = width::fill(s, THOUGHT_WIDTH);
    let lines = text::lines_of(filled.as_str());
    let ghost all = lines.deep_view().map_values(|l: Seq<char>| thought_line(l));
    let mut i: usize = 0;
    assert(head + all.take(0) =~= head);
    while i < lines.len()
        invariant
            i <= lines@.len(),
            all == lines.deep_view().map_values(|l: Seq<char>| thought_line(l)),
            out.deep_view() == head + all.take(i as int),
        decreases lines@.len() - i,
    {
        assert(lines.deep_view()[i as int] == lines@[i as int]@);
        let ghost held = out.deep_view();
        style::push_line(out, Line::of(text::cat2("    ", lines[i].as_str()), theme::muted()));
        assert(held.push(all[i as int]) =~= head + all.take(i + 1));
        i = i + 1;
    }
    assert(all.take(i as int) =~= all);
    style::push_line(out, Line::blank());
    assert(out.deep_view() =~= before + (seq![
        style::one_span("  + Thought"@, style::colored(Color::Yellow)),
    ] + all + seq![style::blank()]));
}

fn render_item(item: &TurnItem, out: &mut Vec<Line>, width: u16, show_reasoning: bool)
    ensures
        final(out).deep_view() == old(out).deep_view() + item_lines(
            item.deep_view(),
            width,
            show_reasoning,
        ),
{
    let ghost before = out.deep_view();
    assert(before + Seq::<LineView>::empty() =~= before);
    match item {
        TurnItem::Step(_) => {},
        TurnItem::Tool(t) => {
            style::push_line(out, render_tool_line(t));
            assert(out.deep_view() =~= before + seq![tool_line(t.deep_view())]);
        },
        TurnItem::Diff { lines } => push_diff(lines, out),
        TurnItem::WrittenFile { path, content } => push_file(
            path.as_str(),
            content.as_str(),
            out,
            width,
        ),
        TurnItem::Reasoning(s) => {
            if show_reasoning && !s.as_str().is_empty() {
                push_thought(s.as_str(), out);
            }
        },
        TurnItem::Text(s) => {
            if !s.as_str().is_empty() {
                markdown_render::render_markdown(s.as_str(), out, width);
            }
        },
    }
}

pub fn render_turn_items(items: &Vec<TurnItem>, out: &mut Vec<Line>, width: u16, show_reasoning: bool)
    ensures
        final(out).deep_view() == old(out).deep_view() + items_lines(
            items.deep_view(),
            width,
            show_reasoning,
        ),
{
    let ghost before = out.deep_view();
    let ghost all = items.deep_view();
    let mut i: usize = 0;
    assert(before + Seq::<LineView>::empty() =~= before);
    while i < items.len()
        invariant
            i <= items@.len(),
            all == items.deep_view(),
            out.deep_view() == before + items_lines(all.take(i as int), width, show_reasoning),
        decreases items@.len() - i,
    {
        assert(all.take(i + 1).drop_last() =~= all.take(i as int));
        assert(all[i as int] == items@[i as int].deep_view());
        let ghost held = out.deep_view();
        render_item(&items[i], out, width, show_reasoning);
        let ghost more = item_lines(all[i as int], width, show_reasoning);
        assert(held + more =~= before + (items_lines(all.take(i as int), width, show_reasoning)
            + more));
        i = i + 1;
    }
    assert(all.take(i as int) =~= all);
}

// ── Messages ──

/// The lines of what a user says, each cut to the screen.
pub open spec fn user_lines(items: Seq<turn::ItemView>, width: u16) -> Seq<LineView>
    decreases items.len(),
{
    if items.len() == 0 {
        Seq::empty()
    } else {
        user_lines(items.drop_last(), width) + match items.last() {
            turn::ItemView::Text(s) => text::lines(s).map_values(
                |l: Seq<char>| user_line(l, width),
            ),
            _ => Seq::empty(),
        }
    }
}

pub open spec fn user_line(line: Seq<char>, width: u16) -> LineView {
    style::one_span(
        tui::clipped(line, markdown_render::minus(width as usize, 2) as nat),
        style::colored(Color::White),
    )
}

/// The lines of what the system says.
pub open spec fn system_lines(items: Seq<turn::ItemView>) -> Seq<LineView>
    decreases items.len(),
{
    if items.len() == 0 {
        Seq::empty()
    } else {
        let before = system_lines(items.drop_last());
        match items.last() {
            turn::ItemView::Text(s) => before.push(
                style::one_span("  ◇ "@ + s, style::colored(Color::DarkGray)),
            ),
            _ => before,
        }
    }
}

/// The lines of a message.
pub open spec fn message_lines(m: tui::ChatView, width: u16, show_reasoning: bool) -> Seq<LineView> {
    if m.role == "user"@ {
        seq![style::blank()] + user_lines(m.items, width) + seq![style::blank()]
    } else if m.role == "assistant"@ {
        let body = items_lines(m.items, width, show_reasoning);
        (match m.usage {
            Some(u) => body.push(style::one_span("  ↳ "@ + u, style::colored(Color::DarkGray))),
            None => body,
        }).push(style::blank())
    } else if m.role == "system"@ {
        system_lines(m.items).push(style::blank())
    } else {
        Seq::empty()
    }
}

/// The lines of messages.
pub open spec fn messages_lines(ms: Seq<tui::ChatView>, width: u16, show_reasoning: bool) -> Seq<
    LineView,
>
    decreases ms.len(),
{
    if ms.len() == 0 {
        Seq::empty()
    } else {
        messages_lines(ms.drop_last(), width, show_reasoning) + message_lines(
            ms.last(),
            width,
            show_reasoning,
        )
    }
}

/// The sign of the spinner.
pub open spec fn spin(n: u64) -> char {
    if n % 4 == 0 {
        '◐'
    } else if n % 4 == 1 {
        '◓'
    } else if n % 4 == 2 {
        '◑'
    } else {
        '◒'
    }
}

/// What is shown before a conversation begins.
pub open spec fn help(agent_kind: Seq<char>, session_label: Seq<char>) -> Seq<LineView> {
    seq![
        style::one_span(
            "  agent-engine"@,
            style::with_modifier(style::colored(Color::Cyan), Modifier::Bold),
        ),
        style::one_span(
            "  "@ + agent_kind + " · session "@ + session_label,
            style::colored(Color::DarkGray),
        ),
        style::blank(),
        style::one_span(
            "  Enter send · Shift+Enter newline · ↑↓/wheel scroll · Ctrl+Y copy · Esc quit"@,
            style::colored(Color::White),
        ),
        style::one_span(
            "  /copy all · /help · cargo run --continue"@,
            style::colored(Color::DarkGray),
        ),
    ]
}

/// The lines of the transcript: the messages, the turn under way, or help
/// where there is nothing yet.
pub open spec fn transcript_lines(a: AppView, width: u16) -> Seq<LineView> {
    let said = messages_lines(a.messages, width, a.show_reasoning);
    if a.thinking {
        match a.active_turn {
            Some(items) => if items.len() == 0 {
                said.push(
                    style::one_span(
                        seq![spin(a.spinner)] + " working…"@,
                        style::colored(Color::Cyan),
                    ),
                )
            } else {
                said + items_lines(items, width, a.show_reasoning)
            },
            None => said,
        }
    } else if a.messages.len() == 0 {
        said + help(a.agent_kind, a.session_label)
    } else {
        said
    }
}

fn push_user_lines(items: &Vec<TurnItem>, out: &mut Vec<Line>, width: u16)
    ensures
        final(out).deep_view() == old(out).deep_view() + user_lines(items.deep_view(), width),
{
    let ghost before = out.deep_view();
    let ghost all = items.deep_view();
    let max: usize = (width as usize).saturating_sub(2);
    let mut i: usize = 0;
    assert(before + Seq::<LineView>::empty() =~= before);
    while i < items.len()
        invariant
            i <= items@.len(),
            all == items.deep_view(),
            max == markdown_render::minus(width as usize, 2),
            out.deep_view() == before + user_lines(all.take(i as int), width),
        decreases items@.len() - i,
    {
        assert(all.take(i + 1).drop_last() =~= all.take(i as int));
        assert(all[i as int] == items@[i as int].deep_view());
        let ghost held = out.deep_view();
        let ghost so_far = user_lines(all.take(i as int), width);
        if let TurnItem::Text(s) = &items[i] {
            let lines = text::lines_of(s.as_str());
            let ghost more = lines.deep_view().map_values(|l: Seq<char>| user_line(l, width));
            let mut k: usize = 0;
            assert(held + more.take(0) =~= held);
            while k < lines.len()
                invariant
                    k <= lines@.len(),
                    max == markdown_render::minus(width as usize, 2),
                    more == lines.deep_view().map_values(|l: Seq<char>| user_line(l, width)),
                    out.deep_view() == held + more.take(k as int),
                decreases lines@.len() - k,
            {
                assert(lines.deep_view()[k as int] == lines@[k as int]@);
                let ghost kept = out.deep_view();
                let shown = tui::truncate_chars(lines[k].as_str(), max);
                style::push_line(out, Line::of(shown, theme::user()));
                assert(kept.push(more[k as int]) =~= held + more.take(k + 1));
                k = k + 1;
            }
            assert(more.take(k as int) =~= more);
            assert(text::lines(s@).map_values(|l: Seq<char>| user_line(l, width)) =~= more);
            assert(held + more =~= before + (so_far + more));
        } else {
            assert(before + (so_far + Seq::<LineView>::empty()) =~= held);
        }
        i = i + 1;
    }
    assert(all.take(i as int) =~= all);
}

fn push_system_lines(items: &Vec<TurnItem>, out: &mut Vec<Line>)
    ensures
        final(out).deep_view() == old(out).deep_view() + system_lines(items.deep_view()),
{
    let ghost before = out.deep_view();
    let ghost all = items.deep_view();
    let mut i: usize = 0;
    assert(before + Seq::<LineView>::empty() =~= before);
    while i < items.len()
        invariant
            i <= items@.len(),
            all == items.deep_view(),
            out.deep_view() == before + system_lines(all.take(i as int)),
        decreases items@.len() - i,
    {
        assert(all.take(i + 1).drop_last() =~= all.take(i as int));
        assert(all[i as int] == items@[i as int].deep_view());
        if let TurnItem::Text(s) = &items[i] {
            style::push_line(out, Line::of(text::cat2("  ◇ ", s.as_str()), theme::dim()));
        }
        assert(out.deep_view() =~= before + system_lines(all.take(i + 1)));
        i = i + 1;
    }
    assert(all.take(i as int) =~= all);
}

pub fn render_message(m: &tui::ChatMessage, out: &mut Vec<Line>, width: u16, show_reasoning: bool)
    ensures
        final(out).deep_view() == old(out).deep_view() + message_lines(
            m.deep_view(),
            width,
            show_reasoning,
        ),
{
    let ghost before = out.deep_view();
    let role = m.role.as_str();
    if text::same(role, "user") {
        style::push_line(out, Line::blank());
        push_user_lines(&m.items, out, width);
        style::push_line(out, Line::blank());
    } else if text::same(role, "assistant") {
        render_turn_items(&m.items, out, width, show_reasoning);
        if let Some(usage) = &m.usage {
            style::push_line(out, Line::of(text::cat2("  ↳ ", usage.as_str()), theme::muted()));
        }
        style::push_line(out, Line::blank());
    } else if text::same(role, "system") {
        push_system_lines(&m.items, out);
        style::push_line(out, Line::blank());
    }
    assert(out.deep_view() =~= before + message_lines(m.deep_view(), width, show_reasoning));
}

pub fn spinner_char(n: u64) -> (r: char)
    ensures
        r == spin(n),
{
    let k: u64 = n % 4;
    if k == 0 {
        '◐'
    } else if k == 1 {
        '◓'
    } else if k == 2 {
        '◑'
    } else {
        '◒'
    }
}

fn spinner_text(n: u64) -> (r: String)
    ensures
        r@ == seq![spin(n)],
{
    let mut s = String::new();
    s.push(spinner_char(n));
    assert(s@ =~= seq![spin(n)]);
    s
}

/// What is shown before a conversation begins.
pub fn help_lines(agent_kind: &str, session_label: &str) -> (r: Vec<Line>)
    ensures
        r.deep_view() == help(agent_kind@, session_label@),
{
    let r = vec![
        Line::of(
            "  agent-engine".to_owned(),
            theme::status_accent().add_modifier(Modifier::Bold),
        ),
        Line::of(text::cat4("  ", agent_kind, " · session ", session_label), theme::dim()),
        Line::blank(),
        Line::of(
            "  Enter send · Shift+Enter newline · ↑↓/wheel scroll · Ctrl+Y copy · Esc quit".to_owned(),
            theme::body(),
        ),
        Line::of("  /copy all · /help · cargo run --continue".to_owned(), theme::muted()),
    ];
    assert(r.deep_view() =~= help(agent_kind@, session_label@));
    r
}

/// The lines of the transcript.
pub fn build_message_lines(state: &AppState, width: u16) -> (r: Vec<Line>)
    ensures
        r.deep_view() == transcript_lines(state.deep_view(), width),
{
    let ghost all = state.messages.deep_view();
    assert(all.len() == state.messages@.len());
    let mut out: Vec<Line> = Vec::new();
    let mut i: usize = 0;
    assert(out.deep_view() =~= Seq::<LineView>::empty());
    while i < state.messages.len()
        invariant
            i <= state.messages@.len(),
            all == state.messages.deep_view(),
            out.deep_view() == messages_lines(all.take(i as int), width, state.show_reasoning),
        decreases state.messages@.len() - i,
    {
        assert(all.take(i + 1).drop_last() =~= all.take(i as int));
        assert(all[i as int] == state.messages@[i as int].deep_view());
        render_message(&state.messages[i], &mut out, width, state.show_reasoning);
        i = i + 1;
    }
    assert(all.take(i as int) =~= all);
    if state.thinking {
        if let Some(turn) = &state.active_turn {
            assert(turn.items.deep_view().len() == turn.items@.len());
            if turn.items.len() == 0 {
                let said = text::cat2(spinner_text(state.spinner).as_str(), " working…");
                style::push_line(&mut out, Line::of(said, theme::tool_running()));
            } else {
                render_turn_items(&turn.items, &mut out, width, state.show_reasoning);
            }
        }
    } else if state.messages.len() == 0 {
        style::push_lines(
            &mut out,
            help_lines(state.agent_kind.as_str(), state.session_label.as_str()),
        );
    }
    out
}

// ── Input line ──

/// The height of the input area: a border, and one to four lines.
pub open spec fn input_height(a: AppView) -> u16 {
    let n = text::lines(a.input).len();
    if a.thinking || n <= 1 {
        2
    } else if n >= 4 {
        5
    } else {
        (n + 1) as u16
    }
}

pub fn input_area_height(state: &AppState) -> (r: u16)
    ensures
        r == input_height(state.deep_view()),
{
    let lines = text::lines_of(state.input.as_str());
    assert(lines.deep_view().len() == lines@.len());
    let n: usize = lines.len();
    if state.thinking || n <= 1 {
        2
    } else if n >= 4 {
        5
    } else {
        (n + 1) as u16
    }
}

/// The title of the input area.
pub open spec fn title(a: AppView) -> SpanView {
    if a.thinking {
        SpanView {
            text: " "@ + seq![spin(a.spinner)] + " running "@,
            style: style::colored(Color::Cyan),
        }
    } else {
        SpanView { text: "  Shift+Enter: newline "@, style: style::colored(Color::DarkGray) }
    }
}

pub fn input_title(state: &AppState) -> (r: Span)
    ensures
        r.deep_view() == title(state.deep_view()),
{
    if state.thinking {
        Span::styled(
            text::cat3(" ", spinner_text(state.spinner).as_str(), " running "),
            theme::tool_running(),
        )
    } else {
        Span::styled("  Shift+Enter: newline ".to_owned(), theme::muted())
    }
}

/// A line of what is typed, behind a mark on the first.
pub open spec fn typed_line(line: Seq<char>, is_first: bool) -> LineView {
    seq![
        SpanView {
            text: if is_first {
                "▌ "@
            } else {
                "  "@
            },
            style: style::colored(
                if is_first {
                    Color::Cyan
                } else {
                    Color::DarkGray
                },
            ),
        },
        SpanView { text: line, style: style::colored(Color::White) },
    ]
}

/// The lines of the input area.
pub open spec fn typed(a: AppView) -> Seq<LineView> {
    if a.thinking {
        seq![
            seq![
                SpanView { text: "▌ "@, style: style::colored(Color::Cyan) },
                SpanView { text: "working…  ↑↓ scroll"@, style: style::colored(Color::DarkGray) },
            ],
        ]
    } else if a.input.len() == 0 {
        seq![style::one_span("▌ "@, style::colored(Color::Cyan))]
    } else {
        let lines = text::lines(a.input);
        Seq::new(lines.len(), |i: int| typed_line(lines[i], i == 0))
    }
}

pub fn input_lines(state: &AppState) -> (r: Vec<Line>)
    ensures
        r.deep_view() == typed(state.deep_view()),
{
    let mut r: Vec<Line> = Vec::new();
    if state.thinking {
        let spans = vec![
            Span::styled("▌ ".to_owned(), theme::status_accent()),
            Span::styled("working…  ↑↓ scroll".to_owned(), theme::muted()),
        ];
        assert(spans.deep_view() =~= typed(state.deep_view())[0]);
        r.push(Line::from_spans(spans));
        assert(r.deep_view() =~= typed(state.deep_view()));
        return r;
    }
    if state.input.as_str().is_empty() {
        r.push(Line::of("▌ ".to_owned(), theme::status_accent()));
        assert(r.deep_view() =~= typed(state.deep_view()));
        return r;
    }
    let lines = text::lines_of(state.input.as_str());
    let ghost all = lines.deep_view();
    let mut i: usize = 0;
    while i < lines.len()
        invariant
            i <= lines@.len(),
            all == lines.deep_view(),
            r@.len() == i,
            forall|j: int|
                0 <= j < i ==> (#[trigger] r@[j]).deep_view() == typed_line(all[j], j == 0),
        decreases lines@.len() - i,
    {
        assert(all[i as int] == lines@[i as int]@);
        let (mark, mark_style) = if i == 0 {
            ("▌ ", theme::status_accent())
        } else {
            ("  ", theme::muted())
        };
        let spans = vec![
            Span::styled(mark.to_owned(), mark_style),
            Span::styled(lines[i].clone(), theme::input_text()),
        ];
        assert(spans.deep_view() =~= typed_line(all[i as int], i == 0));
        r.push(Line::from_spans(spans));
        i = i + 1;
    }
    assert(r.deep_view() =~= typed(state.deep_view()));
    r
}

/// A part of the screen.
#[derive(Debug, Clone, Copy, PartialEq, Eq, Structural)]
pub struct Area {
    pub x: u16,
    pub y: u16,
    pub width: u16,
    pub height: u16,
}

/// The smaller of two numbers.
pub open spec fn least(a: int, b: int) -> int {
    if a < b {
        a
    } else {
        b
    }
}

/// `n`, or zero where `n` is negative.
pub open spec fn at_least_zero(n: int) -> int {
    if n < 0 {
        0
    } else {
        n
    }
}

/// Where the cursor stands in the input area `inner`: behind the last line
/// typed, and within the area.
pub open spec fn cursor(a: AppView, inner: Area) -> Option<(u16, u16)> {
    if a.thinking || a.pending_permission is Some {
        None
    } else {
        let lines = text::lines(a.input);
        let last = if lines.len() == 0 {
            ""@
        } else {
            lines.last()
        };
        let columns = width::text_width(last) as int % 0x10000;
        let row = at_least_zero(lines.len() - 1) % 0x10000;
        let x = least(inner.x + 2 + columns, inner.x + at_least_zero(inner.width - 1));
        let y = inner.y + least(row, at_least_zero(inner.height - 1));
        Some((least(x, 0xffff) as u16, least(y, 0xffff) as u16))
    }
}

pub fn cursor_position(state: &AppState, inner: Area) -> (r: Option<(u16, u16)>)
    ensures
        r == cursor(state.deep_view(), inner),
{
    if state.thinking || state.pending_permission.is_some() {
        return None;
    }
    let lines = text::lines_of(state.input.as_str());
    assert(lines.deep_view().len() == lines@.len());
    let last = if lines.len() == 0 {
        "".to_owned()
    } else {
        assert(lines.deep_view().last() == lines@[lines@.len() - 1]@);
        lines[lines.len() - 1].clone()
    };
    let columns: u32 = (width::display_width(last.as_str()) % 0x10000) as u32;
    let row: u32 = (lines.len().saturating_sub(1) % 0x10000) as u32;
    let right: u32 = inner.x as u32 + inner.width.saturating_sub(1) as u32;
    let behind: u32 = inner.x as u32 + 2 + columns;
    let x: u32 = if behind < right {
        behind
    } else {
        right
    };
    let bottom: u32 = inner.height.saturating_sub(1) as u32;
    let down: u32 = if row < bottom {
        row
    } else {
        bottom
    };
    let y: u32 = inner.y as u32 + down;
    let x: u32 = if x < 0xffff {
        x
    } else {
        0xffff
    };
    let y: u32 = if y < 0xffff {
        y
    } else {
        0xffff
    };
    Some((x as u16, y as u16))
}

// ── Status line and questions ──

/// What the interface is at.
pub open spec fn phase(a: AppView) -> Seq<char> {
    if a.pending_permission is Some {
        "permission"@
    } else if a.thinking {
        "running"@
    } else {
        "ready"@
    }
}

/// Where the transcript is scrolled to.
pub open spec fn scroll_hint(a: AppView) -> Seq<char> {
    if a.max_scroll == 0 {
        Seq::empty()
    } else if a.scroll == usize::MAX {
        " · bottom"@
    } else {
        " · scroll "@ + number::decimal(keys::resolved(a.scroll, a.max_scroll) as nat) + "/"@
            + number::decimal(a.max_scroll as nat)
    }
}

/// The tokens used, and where the transcript is scrolled to.
pub open spec fn counters(a: AppView) -> Seq<char> {
    number::decimal(a.usage_in as nat) + "↑"@ + number::decimal(a.usage_out as nat) + "↓"@ + (
    if a.usage_cache > 0 {
        " · cache:"@ + number::decimal(a.usage_cache as nat)
    } else {
        Seq::empty()
    }) + scroll_hint(a)
}

/// The status line.
pub open spec fn status(a: AppView) -> LineView {
    let meta = style::colored(Color::DarkGray);
    seq![
        SpanView {
            text: (if a.thinking {
                seq![spin(a.spinner)]
            } else {
                "■"@
            }) + " "@,
            style: style::colored(Color::Cyan),
        },
        SpanView {
            text: a.agent_kind,
            style: style::with_modifier(style::colored(Color::White), Modifier::Bold),
        },
        SpanView { text: " · "@ + a.model + " · "@, style: meta },
        SpanView { text: counters(a), style: meta },
        SpanView { text: " · "@ + a.session_label + " · "@ + phase(a), style: meta },
    ]
}

fn counters_text(state: &AppState) -> (r: String)
    ensures
        r@ == counters(state.deep_view()),
{
    let head = text::cat4(
        number::u64_text(state.usage_in).as_str(),
        "↑",
        number::u64_text(state.usage_out).as_str(),
        "↓",
    );
    let cache = if state.usage_cache > 0 {
        text::cat2(" · cache:", number::u64_text(state.usage_cache).as_str())
    } else {
        String::new()
    };
    let hint = if state.max_scroll == 0 {
        String::new()
    } else if state.scroll == usize::MAX {
        " · bottom".to_owned()
    } else {
        let first: usize = keys::resolve_scroll(state.scroll, state.max_scroll);
        text::cat4(
            " · scroll ",
            number::usize_text(first).as_str(),
            "/",
            number::usize_text(state.max_scroll).as_str(),
        )
    };
    text::cat3(head.as_str(), cache.as_str(), hint.as_str())
}

pub fn status_line(state: &AppState) -> (r: Line)
    ensures
        r.deep_view() == status(state.deep_view()),
{
    let phase = if state.pending_permission.is_some() {
        "permission"
    } else if state.thinking {
        "running"
    } else {
        "ready"
    };
    let icon = if state.thinking {
        spinner_text(state.spinner)
    } else {
        "■".to_owned()
    };
    let spans = vec![
        Span::styled(text::cat2(icon.as_str(), " "), theme::status_accent()),
        Span::styled(state.agent_kind.clone(), theme::status_mode()),
        Span::styled(text::cat3(" · ", state.model.as_str(), " · "), theme::status_meta()),
        Span::styled(counters_text(state), theme::status_meta()),
        Span::styled(
            text::cat4(" · ", state.session_label.as_str(), " · ", phase),
            theme::status_meta(),
        ),
    ];
    assert(spans.deep_view() =~= status(state.deep_view()));
    Line::from_spans(spans)
}

/// The question whether a tool may run.
pub open spec fn question(tool_name: Seq<char>, input_summary: Seq<char>) -> Seq<LineView> {
    seq![
        style::blank(),
        style::one_span(
            "  Allow tool: "@ + tool_name,
            style::with_modifier(style::colored(Color::White), Modifier::Bold),
        ),
        style::blank(),
        style::one_span("  "@ + input_summary, style::colored(Color::DarkGray)),
        style::blank(),
        style::one_span("  y allow   n deny   Esc deny"@, style::colored(Color::Cyan)),
    ]
}

/// The lines of the question that is pending.
pub fn permission_lines(state: &AppState) -> (r: Option<Vec<Line>>)
    ensures
        r.deep_view() == (match state.deep_view().pending_permission {
            Some(p) => Some(question(p.tool_name, p.input_summary)),
            None => None,
        }),
{
    match &state.pending_permission {
        None => None,
        Some(p) => {
            let lines = vec![
                Line::blank(),
                Line::of(
                    text::cat2("  Allow tool: ", p.tool_name.as_str()),
                    theme::body().add_modifier(Modifier::Bold),
                ),
                Line::blank(),
                Line::of(text::cat2("  ", p.input_summary.as_str()), theme::dim()),
                Line::blank(),
                Line::of("  y allow   n deny   Esc deny".to_owned(), theme::status_accent()),
            ];
            assert(lines.deep_view() =~= question(p.tool_name@, p.input_summary@));
            Some(lines)
        },
    }
}

/// Reasoning that is hidden takes no line.
pub proof fn hidden_reasoning_takes_no_line(items: Seq<turn::ItemView>, s: Seq<char>, width: u16)
    ensures
        items_lines(items.push(turn::ItemView::Reasoning(s)), width, false) == items_lines(
            items,
            width,
            false,
        ),
{
    assert(items.push(turn::ItemView::Reasoning(s)).drop_last() =~= items);
    assert(items_lines(items, width, false) + Seq::<LineView>::empty() =~= items_lines(
        items,
        width,
        false,
    ));
}

// ── Laws ──

/// A timeline is drawn entry by entry, in order.
pub proof fn timelines_are_drawn_in_order(
    a: Seq<turn::ItemView>,
    b: Seq<turn::ItemView>,
    item: turn::ItemView,
    width: u16,
    show_reasoning: bool,
)
    ensures
        items_lines(a + b, width, show_reasoning) == items_lines(a, width, show_reasoning)
            + items_lines(b, width, show_reasoning),
        items_lines(seq![item], width, show_reasoning) == item_lines(item, width, show_reasoning),
    decreases b.len(),
{
    let none = Seq::<turn::ItemView>::empty();
    assert(seq![item].drop_last() =~= none);
    assert(items_lines(none, width, show_reasoning) =~= Seq::<LineView>::empty());
    assert(items_lines(seq![item], width, show_reasoning) =~= item_lines(
        item,
        width,
        show_reasoning,
    ));
    if b.len() == 0 {
        assert(a + b =~= a);
        assert(items_lines(a, width, show_reasoning) + items_lines(b, width, show_reasoning)
            =~= items_lines(a, width, show_reasoning));
    } else {
        timelines_are_drawn_in_order(a, b.drop_last(), item, width, show_reasoning);
        assert((a + b).drop_last() =~= a + b.drop_last());
        assert(items_lines(a + b, width, show_reasoning) =~= items_lines(a, width, show_reasoning)
            + items_lines(b, width, show_reasoning));
    }
}

/// Messages are drawn one after the other, in order.
pub proof fn messages_are_drawn_in_order(
    a: Seq<tui::ChatView>,
    b: Seq<tui::ChatView>,
    m: tui::ChatView,
    width: u16,
    show_reasoning: bool,
)
    ensures
        messages_lines(a + b, width, show_reasoning) == messages_lines(a, width, show_reasoning)
            + messages_lines(b, width, show_reasoning),
        messages_lines(seq![m], width, show_reasoning) == message_lines(m, width, show_reasoning),
    decreases b.len(),
{
    let none = Seq::<tui::ChatView>::empty();
    assert(seq![m].drop_last() =~= none);
    assert(messages_lines(none, width, show_reasoning) =~= Seq::<LineView>::empty());
    assert(messages_lines(seq![m], width, show_reasoning) =~= message_lines(
        m,
        width,
        show_reasoning,
    ));
    if b.len() == 0 {
        assert(a + b =~= a);
        assert(messages_lines(a, width, show_reasoning) + messages_lines(b, width, show_reasoning)
            =~= messages_lines(a, width, show_reasoning));
    } else {
        messages_are_drawn_in_order(a, b.drop_last(), m, width, show_reasoning);
        assert((a + b).drop_last() =~= a + b.drop_last());
        assert(messages_lines(a + b, width, show_reasoning) =~= messages_lines(
            a,
            width,
            show_reasoning,
        ) + messages_lines(b, width, show_reasoning));
    }
}

/// What the user and the system say is drawn text by text, in order: the user's
/// line by line, the system's behind a mark.
pub proof fn speech_is_drawn_in_order(
    a: Seq<turn::ItemView>,
    b: Seq<turn::ItemView>,
    s: Seq<char>,
    width: u16,
    i: int,
)
    ensures
        user_lines(a + b, width) == user_lines(a, width) + user_lines(b, width),
        system_lines(a + b) == system_lines(a) + system_lines(b),
        ({
            let one = seq![turn::ItemView::Text(s)];
            &&& user_lines(one, width).len() == text::lines(s).len()
            &&& 0 <= i < text::lines(s).len() ==> user_lines(one, width)[i].len() == 1 && user_lines(
                one,
                width,
            )[i][0].text == tui::clipped(
                text::lines(s)[i],
                (if width >= 2 {
                    width - 2
                } else {
                    0
                }) as nat,
            )
            &&& system_lines(one).len() == 1
            &&& system_lines(one)[0].len() == 1
            &&& s.is_suffix_of(system_lines(one)[0][0].text)
        }),
    decreases b.len(),
{
    let none = Seq::<turn::ItemView>::empty();
    let one = seq![turn::ItemView::Text(s)];
    assert(one.drop_last() =~= none);
    assert(user_lines(none, width) =~= Seq::<LineView>::empty());
    assert(system_lines(none) =~= Seq::<LineView>::empty());
    assert(user_lines(one, width) =~= text::lines(s).map_values(|l: Seq<char>| user_line(l, width)));
    let shown = "  ◇ "@ + s;
    assert(system_lines(one)[0][0].text == shown);
    assert(shown.subrange(shown.len() - s.len(), shown.len() as int) =~= s);
    if b.len() == 0 {
        assert(a + b =~= a);
        assert(user_lines(a, width) + user_lines(b, width) =~= user_lines(a, width));
        assert(system_lines(a) + system_lines(b) =~= system_lines(a));
    } else {
        speech_is_drawn_in_order(a, b.drop_last(), s, width, i);
        assert((a + b).drop_last() =~= a + b.drop_last());
        assert(user_lines(a + b, width) =~= user_lines(a, width) + user_lines(b, width));
        assert(system_lines(a + b) =~= system_lines(a) + system_lines(b));
    }
}

/// A message is drawn by its role: all that the user said, all that a reply
/// showed with its usage behind it, or all that the system said.
pub proof fn messages_are_drawn_whole(
    items: Seq<turn::ItemView>,
    usage: Seq<char>,
    width: u16,
    show_reasoning: bool,
)
    ensures
        ({
            let said = message_lines(
                tui::ChatView { role: "user"@, items, usage: None },
                width,
                show_reasoning,
            );
            let body = items_lines(items, width, show_reasoning);
            let bare = message_lines(
                tui::ChatView { role: "assistant"@, items, usage: None },
                width,
                show_reasoning,
            );
            let paid = message_lines(
                tui::ChatView { role: "assistant"@, items, usage: Some(usage) },
                width,
                show_reasoning,
            );
            let told = message_lines(
                tui::ChatView { role: "system"@, items, usage: None },
                width,
                show_reasoning,
            );
            &&& said.len() == user_lines(items, width).len() + 2
            &&& said.subrange(1, said.len() - 1) == user_lines(items, width)
            &&& bare == body.push(style::blank())
            &&& paid.len() == body.len() + 2
            &&& body.is_prefix_of(paid)
            &&& paid[body.len() as int].len() == 1
            &&& usage.is_suffix_of(paid[body.len() as int][0].text)
            &&& told == system_lines(items).push(style::blank())
        }),
{
    reveal_strlit("user");
    reveal_strlit("assistant");
    reveal_strlit("system");
    assert("user"@.len() == 4 && "assistant"@.len() == 9 && "system"@.len() == 6);
    let said = message_lines(
        tui::ChatView { role: "user"@, items, usage: None },
        width,
        show_reasoning,
    );
    assert(said.subrange(1, said.len() - 1) =~= user_lines(items, width));
    let body = items_lines(items, width, show_reasoning);
    let paid = message_lines(
        tui::ChatView { role: "assistant"@, items, usage: Some(usage) },
        width,
        show_reasoning,
    );
    assert(paid.subrange(0, body.len() as int) =~= body);
    let shown = "  ↳ "@ + usage;
    assert(paid[body.len() as int][0].text == shown);
    assert(shown.subrange(shown.len() - usage.len(), shown.len() as int) =~= usage);
}

/// The transcript shows all messages; behind them it shows the turn under way,
/// and where nothing has been said it shows help.
pub proof fn transcripts_show_everything(a: AppView, width: u16)
    ensures
        ({
            let all = transcript_lines(a, width);
            let said = messages_lines(a.messages, width, a.show_reasoning);
            &&& said.is_prefix_of(all)
            &&& !a.thinking && a.messages.len() > 0 ==> all == said
            &&& a.thinking && a.active_turn is Some && a.active_turn.unwrap().len() > 0 ==> all
                == said + items_lines(a.active_turn.unwrap(), width, a.show_reasoning)
            &&& !a.thinking && a.messages.len() == 0 ==> all.len() > 0
        }),
{
    let all = transcript_lines(a, width);
    let said = messages_lines(a.messages, width, a.show_reasoning);
    assert(all.subrange(0, said.len() as int) =~= said);
}

/// What an entry draws: its text as a document, its file under its path as
/// code, its changes line by line, its reasoning only where that is shown.
pub proof fn entries_are_drawn_whole(
    s: Seq<char>,
    path: Seq<char>,
    lines: Seq<Seq<char>>,
    t: turn::ToolLineView,
    width: u16,
    show_reasoning: bool,
    i: int,
)
    ensures
        s.len() > 0 ==> item_lines(turn::ItemView::Text(s), width, show_reasoning)
            == markdown_render::document(s, width),
        ({
            let file = item_lines(
                turn::ItemView::WrittenFile { path, content: s },
                width,
                show_reasoning,
            );
            let lang = match extension(path) {
                Some(ext) => Some(language(ext)),
                None => None,
            };
            &&& file.drop_first() == markdown_render::code_block(lang, text::lines(s), width)
            &&& path.is_suffix_of(file[0].last().text)
        }),
        ({
            let diff = item_lines(turn::ItemView::Diff { lines }, width, show_reasoning);
            &&& diff.len() == lines.len() + 2
            &&& 0 <= i < lines.len() ==> diff[i + 1] == diff_line(lines[i])
        }),
        item_lines(turn::ItemView::Tool(t), width, show_reasoning) == seq![tool_line(t)],
        item_lines(turn::ItemView::Reasoning(s), width, false).len() == 0,
        s.len() > 0 ==> item_lines(turn::ItemView::Reasoning(s), width, true).len() == text::lines(
            width::text_filled(s, THOUGHT_WIDTH),
        ).len() + 2,
{
    let file = item_lines(
        turn::ItemView::WrittenFile { path, content: s },
        width,
        show_reasoning,
    );
    let lang = match extension(path) {
        Some(ext) => Some(language(ext)),
        None => None,
    };
    assert(file.drop_first() =~= markdown_render::code_block(lang, text::lines(s), width));
    let shown = "wrote "@ + path;
    assert(file[0].last().text == shown);
    assert(shown.subrange(shown.len() - path.len(), shown.len() as int) =~= path);
}

/// Reasoning is drawn line by line, as it was filled.
pub proof fn reasoning_is_drawn(s: Seq<char>, width: u16, i: int)
    requires
        s.len() > 0,
        0 <= i < text::lines(width::text_filled(s, THOUGHT_WIDTH)).len(),
    ensures
        ({
            let all = item_lines(turn::ItemView::Reasoning(s), width, true);
            let line = text::lines(width::text_filled(s, THOUGHT_WIDTH))[i];
            all[i + 1].len() == 1 && line.is_suffix_of(all[i + 1][0].text)
        }),
{
    let line = text::lines(width::text_filled(s, THOUGHT_WIDTH))[i];
    let shown = "    "@ + line;
    assert(shown.subrange(shown.len() - line.len(), shown.len() as int) =~= line);
}

/// A tool is drawn with its name and its target; one that ended shows its time,
/// and one that failed shows its error.
pub proof fn tools_are_drawn(t: turn::ToolLineView)
    ensures
        tool_line(t).len() == 6,
        tool_line(t)[2].text == t.name,
        tool_line(t)[4].text == tui::clipped(t.target, 54),
        t.status matches turn::StatusView::Done { ms } ==> text::holds(
            tool_line(t)[5].text,
            duration::shown(ms),
        ),
        t.status matches turn::StatusView::Error { msg, ms } ==> text::holds(
            tool_line(t)[5].text,
            duration::shown(ms),
        ) && text::holds(tool_line(t)[5].text, tui::clipped(msg, 24)) && tool_line(t)[5].style.fg
            == Some(Color::Red),
        !(t.status is Error) ==> tool_line(t)[5].style.fg != Some(Color::Red),
{
    let none = Seq::<char>::empty();
    match t.status {
        turn::StatusView::Done { ms } => {
            let d = duration::shown(ms);
            text::holds_itself(d);
            text::whole_holds_parts("  "@, d, none, d);
            assert("  "@ + d + none =~= "  "@ + d);
        },
        turn::StatusView::Error { msg, ms } => {
            let d = duration::shown(ms);
            let m = tui::clipped(msg, 24);
            text::holds_itself(d);
            text::holds_itself(m);
            text::whole_holds_parts("  ✘ "@ + m + " "@, d, none, d);
            assert("  ✘ "@ + m + " "@ + d + none =~= "  ✘ "@ + m + " "@ + d);
            text::whole_holds_parts("  ✘ "@, m, " "@ + d, m);
            assert("  ✘ "@ + m + (" "@ + d) =~= "  ✘ "@ + m + " "@ + d);
        },
        turn::StatusView::Running => {},
    }
}

/// Added lines are green and removed ones red, and both are shown whole.
pub proof fn changes_have_colors(line: Seq<char>)
    requires
        line.len() > 0,
    ensures
        diff_line(line).len() == 1,
        line[0] == '+' <==> diff_line(line)[0].style.fg == Some(Color::Green),
        line[0] == '-' <==> diff_line(line)[0].style.fg == Some(Color::Red),
        line[0] == '+' || line[0] == '-' ==> line.is_suffix_of(diff_line(line)[0].text),
        line.skip(1).is_suffix_of(diff_line(line)[0].text),
{
    let shown = diff_line(line)[0].text;
    if line[0] != '~' && line[0] != ' ' {
        assert(shown.subrange(shown.len() - line.len(), shown.len() as int) =~= line);
    }
    let rest = line.skip(1);
    assert(shown.subrange(shown.len() - rest.len(), shown.len() as int) =~= rest);
}

proof fn lemma_after_mark(head: Seq<char>, c: char, tail: Seq<char>)
    requires
        !tail.contains(c),
    ensures
        after_last(head + seq![c] + tail, c) == tail,
        after_last(tail, c) == tail,
    decreases tail.len(),
{
    let s = head + seq![c] + tail;
    if tail.len() == 0 {
        assert(s.last() == c);
        assert(tail =~= Seq::<char>::empty());
    } else {
        let rest = tail.drop_last();
        assert(tail.contains(tail.last()));
        assert forall|i: int| 0 <= i < rest.len() implies rest[i] != c by {
            assert(rest[i] == tail[i]);
            assert(tail.contains(tail[i]));
        }
        lemma_after_mark(head, c, rest);
        assert(s.drop_last() =~= head + seq![c] + rest);
        assert(s.last() == tail.last());
        assert(rest.push(tail.last()) =~= tail);
    }
}

/// The extension of a file is what follows the last dot of its name, in
/// whatever directory it lies.
pub proof fn extensions_follow_the_last_dot(dir: Seq<char>, stem: Seq<char>, ext: Seq<char>)
    requires
        stem.len() > 0,
        !stem.contains('/'),
        ext.len() > 0,
        !ext.contains('/'),
        !ext.contains('.'),
    ensures
        extension(stem + seq!['.'] + ext) == Some(ext),
        extension(dir + seq!['/'] + stem + seq!['.'] + ext) == Some(ext),
{
    let name = stem + seq!['.'] + ext;
    let path = dir + seq!['/'] + name;
    assert(path =~= dir + seq!['/'] + stem + seq!['.'] + ext);
    assert(ext.contains(ext.last()));
    assert forall|i: int| 0 <= i < name.len() implies name[i] != '/' by {
        if i < stem.len() {
            assert(stem.contains(stem[i]));
        } else if i > stem.len() {
            assert(name[i] == ext[i - stem.len() - 1]);
            assert(ext.contains(ext[i - stem.len() - 1]));
        }
    }
    lemma_after_mark(dir, '/', name);
    lemma_after_mark(stem, '.', ext);
    assert(name.last() == ext.last());
    assert(path.last() == ext.last());
    assert(tidy(name) == name);
    assert(tidy(path) == path);
    assert(name.len() == stem.len() + 1 + ext.len());
    if name == seq!['.', '.'] {
        assert(name.len() == 2);
    }
}

/// Languages go by their extensions; an extension that is not known stands for
/// itself.
pub proof fn languages_go_by_extensions(ext: Seq<char>)
    ensures
        ext == "rs"@ ==> language(ext) == "rust"@,
        ext == "py"@ ==> language(ext) == "python"@,
        ext == "js"@ || ext == "ts"@ || ext == "tsx"@ ==> language(ext) == "javascript"@,
        ext == "md"@ ==> language(ext) == "markdown"@,
        ext == "sh"@ || ext == "bash"@ ==> language(ext) == "bash"@,
        ext == "yaml"@ || ext == "yml"@ ==> language(ext) == "yaml"@,
        ext == "cpp"@ || ext == "cc"@ || ext == "cxx"@ || ext == "h"@ || ext == "hpp"@ ==> language(
            ext,
        ) == "cpp"@,
        ext.len() > 4 ==> language(ext) == ext,
{
    reveal_strlit("rs");
    reveal_strlit("cpp");
    reveal_strlit("cc");
    reveal_strlit("cxx");
    reveal_strlit("h");
    reveal_strlit("hpp");
    reveal_strlit("py");
    reveal_strlit("js");
    reveal_strlit("ts");
    reveal_strlit("tsx");
    reveal_strlit("md");
    reveal_strlit("sh");
    reveal_strlit("bash");
    reveal_strlit("json");
    reveal_strlit("toml");
    reveal_strlit("yaml");
    reveal_strlit("yml");
    assert("rs"@[0] == 'r' && "py"@[0] == 'p' && "js"@[0] == 'j' && "md"@[0] == 'm');
    assert("ts"@[0] == 't' && "sh"@[0] == 's' && "cc"@[0] == 'c' && "h"@.len() == 1);
    assert("tsx"@[0] == 't' && "yml"@[0] == 'y' && "cpp"@[0] == 'c' && "cxx"@[0] == 'c');
    assert("hpp"@[0] == 'h' && "bash"@[0] == 'b' && "json"@[0] == 'j' && "toml"@[0] == 't');
    assert("yaml"@[0] == 'y');
}

/// What is typed is shown line by line, whole, and the mark stands before the
/// first line.
pub proof fn typing_is_shown(a: AppView, i: int)
    requires
        !a.thinking,
        a.input.len() > 0,
        0 <= i < text::lines(a.input).len(),
    ensures
        typed(a).len() == text::lines(a.input).len(),
        typed(a)[i].len() == 2,
        typed(a)[i][1].text == text::lines(a.input)[i],
        typed(a)[i][0].text == (if i == 0 {
            "▌ "@
        } else {
            "  "@
        }),
{
}

/// The input area grows with what is typed, from one line to four.
pub proof fn input_grows_with_its_lines(a: AppView)
    ensures
        2 <= input_height(a) <= 5,
        !a.thinking && 1 <= text::lines(a.input).len() <= 4 ==> input_height(a) == text::lines(
            a.input,
        ).len() + 1,
        a.thinking ==> input_height(a) == 2,
{
}

/// The cursor stands within the input area, behind the last line where there is
/// room, and is not shown while the user cannot type.
pub proof fn cursors_stay_in_the_area(a: AppView, inner: Area)
    requires
        inner.width > 0,
        inner.height > 0,
        inner.x + inner.width <= 0xffff,
        inner.y + inner.height <= 0xffff,
    ensures
        cursor(a, inner) is None <==> a.thinking || a.pending_permission is Some,
        cursor(a, inner) matches Some((x, y)) ==> inner.x <= x < inner.x + inner.width && inner.y
            <= y < inner.y + inner.height,
        cursor(a, inner) matches Some((x, y)) ==> ({
            let lines = text::lines(a.input);
            lines.len() > 0 && lines.len() <= inner.height && width::text_width(lines.last()) + 2
                < inner.width ==> x == inner.x + 2 + width::text_width(lines.last()) && y == inner.y
                + lines.len() - 1
        }),
{
}

/// The status line tells the kind of agent, the model, the tokens used, the
/// session, and what the program is at.
pub proof fn the_status_is_told(a: AppView)
    ensures
        status(a).len() == 5,
        status(a)[1].text == a.agent_kind,
        text::holds(status(a)[2].text, a.model),
        text::holds(status(a)[3].text, number::decimal(a.usage_in as nat)),
        text::holds(status(a)[3].text, number::decimal(a.usage_out as nat)),
        text::holds(status(a)[4].text, a.session_label),
        phase(a).is_suffix_of(status(a)[4].text),
        phase(a) == (if a.pending_permission is Some {
            "permission"@
        } else if a.thinking {
            "running"@
        } else {
            "ready"@
        }),
{
    let none = Seq::<char>::empty();
    let i = number::decimal(a.usage_in as nat);
    let o = number::decimal(a.usage_out as nat);
    let cache = if a.usage_cache > 0 {
        " · cache:"@ + number::decimal(a.usage_cache as nat)
    } else {
        Seq::empty()
    };
    let hint = scroll_hint(a);
    text::holds_itself(a.model);
    text::holds_itself(a.session_label);
    text::holds_itself(i);
    text::holds_itself(o);
    text::whole_holds_parts(" · "@, a.model, " · "@, a.model);
    text::whole_holds_parts(none, i, "↑"@ + o + "↓"@ + cache + hint, i);
    assert(counters(a) =~= none + i + ("↑"@ + o + "↓"@ + cache + hint));
    text::whole_holds_parts(i + "↑"@, o, "↓"@ + cache + hint, o);
    assert(counters(a) =~= i + "↑"@ + o + ("↓"@ + cache + hint));
    let last = status(a)[4].text;
    text::whole_holds_parts(" · "@, a.session_label, " · "@ + phase(a), a.session_label);
    assert(last =~= " · "@ + a.session_label + (" · "@ + phase(a)));
    assert(last.subrange(last.len() - phase(a).len(), last.len() as int) =~= phase(a));
}

/// A question names the tool and what it would work on.
pub proof fn questions_name_the_tool(tool_name: Seq<char>, input_summary: Seq<char>)
    ensures
        question(tool_name, input_summary).len() == 6,
        tool_name.is_suffix_of(question(tool_name, input_summary)[1][0].text),
        input_summary.is_suffix_of(question(tool_name, input_summary)[3][0].text),
{
    let a = "  Allow tool: "@ + tool_name;
    let b = "  "@ + input_summary;
    assert(a.subrange(a.len() - tool_name.len(), a.len() as int) =~= tool_name);
    assert(b.subrange(b.len() - input_summary.len(), b.len() as int) =~= input_summary);
}

/// The status line tells where the transcript is scrolled to, where it can be
/// scrolled at all.
pub proof fn scrolling_is_told(a: AppView)
    ensures
        a.max_scroll == 0 ==> scroll_hint(a).len() == 0,
        a.max_scroll > 0 && a.scroll != usize::MAX ==> text::holds(
            scroll_hint(a),
            number::decimal(keys::resolved(a.scroll, a.max_scroll) as nat),
        ) && number::decimal(a.max_scroll as nat).is_suffix_of(scroll_hint(a)),
        scroll_hint(a).is_suffix_of(counters(a)),
{
    let hint = scroll_hint(a);
    let all = counters(a);
    assert(all.subrange(all.len() - hint.len(), all.len() as int) =~= hint);
    if a.max_scroll > 0 && a.scroll != usize::MAX {
        let first = number::decimal(keys::resolved(a.scroll, a.max_scroll) as nat);
        let max = number::decimal(a.max_scroll as nat);
        text::holds_itself(first);
        text::whole_holds_parts(" · scroll "@, first, "/"@ + max, first);
        assert(hint =~= " · scroll "@ + first + ("/"@ + max));
        assert(hint.subrange(hint.len() - max.len(), hint.len() as int) =~= max);
    }
}

/// Slashes at the end of a path, and the directory itself, do not count for its
/// name.
pub proof fn paths_may_end_in_slashes(path: Seq<char>)
    ensures
        extension(path.push('/')) == extension(path),
        extension(path + seq!['/', '.']) == extension(path),
{
    assert(path.push('/').drop_last() =~= path);
    let dotted = path + seq!['/', '.'];
    assert(dotted.last() == '.');
    assert(dotted[dotted.len() - 2] == '/');
    assert(dotted.take(dotted.len() - 2) =~= path);
}

/// A hidden file has no extension, and neither has one without a dot.
pub proof fn hidden_files_have_no_extension(name: Seq<char>)
    requires
        name.len() > 0,
        !name.contains('/'),
        !name.contains('.'),
    ensures
        extension(name) is None,
        extension(seq!['.'] + name) is None,
{
    let hidden = seq!['.'] + name;
    let none = Seq::<char>::empty();
    assert(name.contains(name.last()));
    lemma_after_mark(none, '/', name);
    lemma_after_mark(none, '.', name);
    assert forall|i: int| 0 <= i < hidden.len() implies hidden[i] != '/' by {
        if i > 0 {
            assert(name.contains(name[i - 1]));
        }
    }
    lemma_after_mark(none, '/', hidden);
    assert(none + seq!['.'] + name =~= hidden);
    assert(hidden.last() == name.last());
    assert(tidy(name) == name);
    assert(tidy(hidden) == hidden);
}

} // verus!
