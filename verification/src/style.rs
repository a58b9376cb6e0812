//! Styled text.
use vstd::prelude::*;

verus! {

/// The colors of a terminal.
#[derive(Debug, Clone, Copy, PartialEq, Eq, Structural)]
pub enum Color {
    White,
    Gray,
    DarkGray,
    Red,
    Green,
    Yellow,
    Blue,
    Cyan,
}

#[derive(Debug, Clone, Copy, PartialEq, Eq, Structural)]
pub enum Modifier {
    Bold,
    Italic,
    Underlined,
}

/// How text is shown.
#[derive(Debug, Clone, Copy, PartialEq, Eq)]
pub struct Style {
    pub fg: Option<Color>,
    pub bold: bool,
    pub italic: bool,
    pub underlined: bool,
}

/// The style of the terminal.
pub open spec fn plain() -> Style {
    Style { fg: None, bold: false, italic: false, underlined: false }
}

/// The style of the terminal in a color.
pub open spec fn colored(c: Color) -> Style {
    Style { fg: Some(c), ..plain() }
}

/// `s` in a color.
pub open spec fn with_color(s: Style, c: Color) -> Style {
    Style { fg: Some(c), ..s }
}

/// `s` with a modifier.
pub open spec fn with_modifier(s: Style, m: Modifier) -> Style {
    match m {
        Modifier::Bold => Style { bold: true, ..s },
        Modifier::Italic => Style { italic: true, ..s },
        Modifier::Underlined => Style { underlined: true, ..s },
    }
}

impl Default for Style {
    fn default() -> (r: Self)
        ensures
            r == plain(),
    {
        Style { fg: None, bold: false, italic: false, underlined: false }
    }
}

impl Style {
    pub fn fg(self, c: Color) -> (r: Style)
        ensures
            r == with_color(self, c),
    {
        Style { fg: Some(c), bold: self.bold, italic: self.italic, underlined: self.underlined }
    }

    pub fn add_modifier(self, m: Modifier) -> (r: Style)
        ensures
            r == with_modifier(self, m),
    {
        let mut r = self;
        match m {
            Modifier::Bold => {
                r.bold = true;
            },
            Modifier::Italic => {
                r.italic = true;
            },
            Modifier::Underlined => {
                r.underlined = true;
            },
        }
        r
    }
}

/// Text in one style.
pub struct Span {
    pub text: String,
    pub style: Style,
}

/// The contents of a `Span`.
pub struct SpanView {
    pub text: Seq<char>,
    pub style: Style,
}

impl DeepView for Span {
    type V = SpanView;

    open spec fn deep_view(&self) -> SpanView {
        SpanView { text: self.text@, style: self.style }
    }
}

impl Span {
    /// Text in the style of the terminal.
    pub fn raw(text: &str) -> (r: Self)
        ensures
            r.deep_view() == unstyled(text@),
    {
        Span { text: text.to_owned(), style: Style::default() }
    }

    pub fn styled(text: String, style: Style) -> (r: Self)
        ensures
            r.deep_view() == (SpanView { text: text@, style }),
    {
        Span { text, style }
    }
}

/// Text in the style of the terminal.
pub open spec fn unstyled(text: Seq<char>) -> SpanView {
    SpanView { text, style: plain() }
}

/// A line of styled text.
pub struct Line {
    pub spans: Vec<Span>,
}

/// The contents of a `Line`.
pub type LineView = Seq<SpanView>;

impl DeepView for Line {
    type V = LineView;

    open spec fn deep_view(&self) -> LineView {
        self.spans.deep_view()
    }
}

/// A line in one style.
pub open spec fn one_span(text: Seq<char>, style: Style) -> LineView {
    seq![SpanView { text, style }]
}

/// The empty line.
pub open spec fn blank() -> LineView {
    Seq::empty()
}

impl Line {
    /// The empty line.
    pub fn blank() -> (r: Self)
        ensures
            r.deep_view() == blank(),
    {
        let r = Line { spans: Vec::new() };
        assert(r.spans.deep_view() =~= blank());
        r
    }

    /// A line in one style.
    pub fn of(text: String, style: Style) -> (r: Self)
        ensures
            r.deep_view() == one_span(text@, style),
    {
        let r = Line { spans: vec![Span { text, style }] };
        assert(r.spans.deep_view() =~= one_span(text@, style));
        r
    }

    /// A line of several styles.
    pub fn from_spans(spans: Vec<Span>) -> (r: Self)
        ensures
            r.deep_view() == spans.deep_view(),
    {
        Line { spans }
    }
}

/// Adds a line at the end.
pub fn push_line(out: &mut Vec<Line>, line: Line)
    ensures
        final(out).deep_view() == old(out).deep_view().push(line.deep_view()),
{
    out.push(line);
    assert(out.deep_view() =~= old(out).deep_view().push(line.deep_view()));
}

/// Adds lines at the end.
pub fn push_lines(out: &mut Vec<Line>, lines: Vec<Line>)
    ensures
        final(out).deep_view() == old(out).deep_view() + lines.deep_view(),
{
    let mut lines = lines;
    let ghost before = out.deep_view();
    let ghost more = lines.deep_view();
    out.append(&mut lines);
    assert(out.deep_view() =~= before + more);
}

/// Adds a span at the end.
pub fn push_span(spans: &mut Vec<Span>, span: Span)
    ensures
        final(spans).deep_view() == old(spans).deep_view().push(span.deep_view()),
{
    spans.push(span);
    assert(spans.deep_view() =~= old(spans).deep_view().push(span.deep_view()));
}

// ── Laws ──

/// A color or a modifier changes that and nothing else of a style.
pub proof fn styles_change_one_thing(s: Style, c: Color, m: Modifier)
    ensures
        with_color(s, c).fg == Some(c),
        with_color(s, c).bold == s.bold,
        with_color(s, c).italic == s.italic,
        with_color(s, c).underlined == s.underlined,
        with_modifier(s, m).fg == s.fg,
        with_modifier(s, m).bold <==> s.bold || m == Modifier::Bold,
        with_modifier(s, m).italic <==> s.italic || m == Modifier::Italic,
        with_modifier(s, m).underlined <==> s.underlined || m == Modifier::Underlined,
        colored(c) == with_color(plain(), c),
        plain().fg is None,
        !plain().bold,
        !plain().italic,
        !plain().underlined,
{
}

/// A line in one style is its text in that style, and an empty line is nothing.
pub proof fn lines_hold_their_text(text: Seq<char>, style: Style)
    ensures
        one_span(text, style).len() == 1,
        one_span(text, style)[0].text == text,
        one_span(text, style)[0].style == style,
        unstyled(text).text == text,
        unstyled(text).style == plain(),
        blank().len() == 0,
{
}

} // verus!
