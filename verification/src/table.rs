//! Tables of Markdown, drawn with borders.
use vstd::prelude::*;
use crate::markdown;
use crate::markdown_render;
use crate::style;
use crate::style::{Color, Line, LineView, Modifier, Span, SpanView, Style};
use crate::text;
use crate::width;

verus! {

// ── Widths of columns ──

/// The number of columns of the longest row.
pub open spec fn col_count(rows: Seq<Seq<Seq<char>>>) -> nat
    decreases rows.len(),
{
    if rows.len() == 0 {
        0
    } else {
        let before = col_count(rows.drop_last());
        if rows.last().len() > before {
            rows.last().len()
        } else {
            before
        }
    }
}

/// The width of the widest cell in column `i`, and at least two.
pub open spec fn col_width(rows: Seq<Seq<Seq<char>>>, i: int) -> usize
    decreases rows.len(),
{
    if rows.len() == 0 {
        2
    } else {
        let before = col_width(rows.drop_last(), i);
        let row = rows.last();
        if i < row.len() && width::text_width(markdown_render::visible(row[i])) > before {
            width::text_width(markdown_render::visible(row[i]))
        } else {
            before
        }
    }
}

/// The widths that the columns ask for.
pub open spec fn col_widths(rows: Seq<Seq<Seq<char>>>) -> Seq<usize> {
    Seq::new(col_count(rows), |i: int| col_width(rows, i))
}

/// The sum of widths.
pub open spec fn sum(widths: Seq<usize>) -> nat
    decreases widths.len(),
{
    if widths.len() == 0 {
        0
    } else {
        sum(widths.drop_last()) + widths.last() as nat
    }
}

/// The number of columns that can be narrower.
pub open spec fn flexible(widths: Seq<usize>) -> nat
    decreases widths.len(),
{
    if widths.len() == 0 {
        0
    } else {
        flexible(widths.drop_last()) + if widths.last() > 2 {
            1nat
        } else {
            0
        }
    }
}

/// A column that is narrower by `per`, and still two wide.
pub open spec fn narrower(w: usize, per: nat) -> usize {
    if w <= 2 {
        w
    } else if w >= per + 2 {
        (w - per) as usize
    } else {
        2
    }
}

/// The part of the excess that each column gives up.
pub open spec fn share(excess: nat, columns: nat) -> nat {
    if excess / columns < 1 {
        1
    } else {
        excess / columns
    }
}

/// Columns after each that can gives up its share.
pub open spec fn narrowed(widths: Seq<usize>, per: nat) -> Seq<usize> {
    widths.map_values(|w: usize| narrower(w, per))
}

/// Columns made narrower in equal steps until they fit in `budget`, or are all
/// as narrow as can be.
pub open spec fn shrunk(widths: Seq<usize>, budget: nat) -> Seq<usize>
    decreases sum(widths),
    when true
    via shrunk_decreases
{
    if sum(widths) <= budget || flexible(widths) == 0 {
        widths
    } else {
        shrunk(narrowed(widths, share((sum(widths) - budget) as nat, flexible(widths))), budget)
    }
}

#[via_fn]
proof fn shrunk_decreases(widths: Seq<usize>, budget: nat) {
    if sum(widths) > budget && flexible(widths) > 0 {
        lemma_narrowed(widths, share((sum(widths) - budget) as nat, flexible(widths)));
    }
}

proof fn lemma_narrowed(widths: Seq<usize>, per: nat)
    requires
        per >= 1,
    ensures
        sum(narrowed(widths, per)) + flexible(widths) <= sum(widths),
    decreases widths.len(),
{
    if widths.len() > 0 {
        lemma_narrowed(widths.drop_last(), per);
        assert(narrowed(widths, per).drop_last() =~= narrowed(widths.drop_last(), per));
    }
}

proof fn lemma_flexible(widths: Seq<usize>)
    ensures
        flexible(widths) <= widths.len(),
        flexible(widths) == 0 ==> forall|i: int| 0 <= i < widths.len() ==> #[trigger] widths[i] <= 2,
    decreases widths.len(),
{
    if widths.len() > 0 {
        lemma_flexible(widths.drop_last());
        assert forall|i: int| 0 <= i < widths.len() && flexible(widths) == 0 implies #[trigger] widths[i]
            <= 2 by {
            if i < widths.len() - 1 {
                assert(widths.drop_last()[i] == widths[i]);
            }
        }
    }
}

proof fn lemma_sum_bounds(widths: Seq<usize>, i: int)
    requires
        0 <= i < widths.len(),
    ensures
        widths[i] <= sum(widths),
    decreases widths.len(),
{
    if i < widths.len() - 1 {
        lemma_sum_bounds(widths.drop_last(), i);
    }
}

/// Shrinking keeps the number of columns, makes none wider, leaves narrow ones
/// alone and the others at least two wide, and ends within the budget unless
/// every column is as narrow as can be.
pub proof fn shrinking_is_fair(widths: Seq<usize>, budget: nat)
    ensures
        shrunk(widths, budget).len() == widths.len(),
        forall|i: int|
            0 <= i < widths.len() ==> (#[trigger] shrunk(widths, budget)[i]) <= widths[i] && (
            widths[i] <= 2 ==> shrunk(widths, budget)[i] == widths[i]) && (widths[i] > 2 ==> shrunk(
                widths,
                budget,
            )[i] >= 2),
        sum(shrunk(widths, budget)) <= budget || forall|i: int|
            0 <= i < widths.len() ==> (#[trigger] shrunk(widths, budget)[i]) <= 2,
    decreases sum(widths),
{
    lemma_flexible(widths);
    if sum(widths) > budget && flexible(widths) > 0 {
        let per = share((sum(widths) - budget) as nat, flexible(widths));
        let next = narrowed(widths, per);
        lemma_narrowed(widths, per);
        shrinking_is_fair(next, budget);
        assert forall|i: int| 0 <= i < widths.len() implies (#[trigger] shrunk(widths, budget)[i])
            <= widths[i] && (widths[i] <= 2 ==> shrunk(widths, budget)[i] == widths[i]) && (
        widths[i] > 2 ==> shrunk(widths, budget)[i] >= 2) by {
            assert(next[i] == narrower(widths[i], per));
        }
    }
}

fn total(widths: &Vec<usize>) -> (r: u128)
    ensures
        r == sum(widths@),
{
    let mut r: u128 = 0;
    let mut i: usize = 0;
    while i < widths.len()
        invariant
            i <= widths@.len(),
            r == sum(widths@.take(i as int)),
            r <= i * 0xffff_ffff_ffff_ffff,
        decreases widths@.len() - i,
    {
        assert(widths@.take(i + 1).drop_last() =~= widths@.take(i as int));
        assert(i * 0xffff_ffff_ffff_ffff + 0xffff_ffff_ffff_ffff <= 0xffff_ffff_ffff_ffff
            * 0xffff_ffff_ffff_ffff) by (nonlinear_arith)
            requires
                i < 0xffff_ffff_ffff_ffff,
        ;
        assert(widths.len() <= usize::MAX);
        r = r + widths[i] as u128;
        i = i + 1;
    }
    assert(widths@.take(i as int) =~= widths@);
    r
}

fn count_flexible(widths: &Vec<usize>) -> (r: usize)
    ensures
        r == flexible(widths@),
{
    let mut r: usize = 0;
    let mut i: usize = 0;
    while i < widths.len()
        invariant
            i <= widths@.len(),
            r <= i,
            r == flexible(widths@.take(i as int)),
        decreases widths@.len() - i,
    {
        assert(widths@.take(i + 1).drop_last() =~= widths@.take(i as int));
        if widths[i] > 2 {
            r = r + 1;
        }
        i = i + 1;
    }
    assert(widths@.take(i as int) =~= widths@);
    r
}

/// Makes columns narrower in equal steps until they fit in `budget`, or are
/// all as narrow as can be.
pub fn shrink_columns(widths: &mut Vec<usize>, budget: usize)
    ensures
        final(widths)@ == shrunk(old(widths)@, budget as nat),
{
    let ghost whole = shrunk(widths@, budget as nat);
    loop
        invariant
            whole == shrunk(old(widths)@, budget as nat),
            whole == shrunk(widths@, budget as nat),
        decreases sum(widths@),
    {
        let all: u128 = total(widths);
        let flex: usize = count_flexible(widths);
        if all <= budget as u128 || flex == 0 {
            return ;
        }
        let excess: u128 = all - budget as u128;
        let part: u128 = excess / (flex as u128);
        let per: u128 = if part < 1 {
            1
        } else {
            part
        };
        let ghost before = widths@;
        proof {
            lemma_narrowed(before, per as nat);
        }
        let mut i: usize = 0;
        assert(per == share(excess as nat, flex as nat));
        while i < widths.len()
            invariant
                i <= widths@.len(),
                widths@.len() == before.len(),
                per >= 1,
                forall|j: int| 0 <= j < i ==> #[trigger] widths@[j] == narrower(before[j], per as nat),
                forall|j: int| i <= j < before.len() ==> #[trigger] widths@[j] == before[j],
            decreases widths@.len() - i,
        {
            let w: usize = widths[i];
            assert(w == before[i as int]);
            if w > 2 {
                let less: usize = if per <= (w - 2) as u128 {
                    w - per as usize
                } else {
                    2
                };
                widths.set(i, less);
            }
            i = i + 1;
        }
        assert(widths@ =~= narrowed(before, per as nat));
    }
}

/// The columns that borders and spaces take.
pub open spec fn overhead(columns: nat) -> nat {
    (3 * columns + 1) as nat
}

/// The widths of the columns of a table on a screen of `max` columns.
pub open spec fn table_widths(rows: Seq<Seq<Seq<char>>>, max: usize) -> Seq<usize> {
    let asked = col_widths(rows);
    let border = overhead(col_count(rows));
    if border + sum(asked) > max {
        shrunk(
            asked,
            if border > max {
                0
            } else {
                (max - border) as nat
            },
        )
    } else {
        asked
    }
}

/// The columns of a table can have their borders drawn.
proof fn lemma_widths_bounded(rows: Seq<Seq<Seq<char>>>, max: usize)
    ensures
        table_widths(rows, max).len() == col_count(rows),
        forall|i: int|
            0 <= i < table_widths(rows, max).len() ==> (#[trigger] table_widths(rows, max)[i]) + 2
                <= usize::MAX,
{
    let asked = col_widths(rows);
    let border = overhead(col_count(rows));
    let ws = table_widths(rows, max);
    if border + sum(asked) > max {
        let budget = if border > max {
            0
        } else {
            (max - border) as nat
        };
        shrinking_is_fair(asked, budget);
    }
    assert forall|i: int| 0 <= i < ws.len() implies (#[trigger] ws[i]) + 2 <= usize::MAX by {
        lemma_sum_bounds(ws, i);
    }
}

fn count_cols(rows: &Vec<Vec<String>>) -> (r: usize)
    ensures
        r == col_count(rows.deep_view()),
{
    let ghost all = rows.deep_view();
    let mut r: usize = 0;
    let mut i: usize = 0;
    while i < rows.len()
        invariant
            i <= rows@.len(),
            all == rows.deep_view(),
            r == col_count(all.take(i as int)),
        decreases rows@.len() - i,
    {
        assert(all.take(i + 1).drop_last() =~= all.take(i as int));
        assert(all[i as int].len() == rows@[i as int]@.len());
        if rows[i].len() > r {
            r = rows[i].len();
        }
        i = i + 1;
    }
    assert(all.take(i as int) =~= all);
    r
}

fn width_of_col(rows: &Vec<Vec<String>>, i: usize) -> (r: usize)
    ensures
        r == col_width(rows.deep_view(), i as int),
{
    let ghost all = rows.deep_view();
    let mut r: usize = 2;
    let mut k: usize = 0;
    while k < rows.len()
        invariant
            k <= rows@.len(),
            all == rows.deep_view(),
            r == col_width(all.take(k as int), i as int),
        decreases rows@.len() - k,
    {
        assert(all.take(k + 1).drop_last() =~= all.take(k as int));
        let row = &rows[k];
        assert(all[k as int].len() == row@.len());
        if i < row.len() {
            assert(all[k as int][i as int] == row@[i as int]@);
            let w: usize = markdown_render::visible_width(row[i].as_str());
            if w > r {
                r = w;
            }
        }
        k = k + 1;
    }
    assert(all.take(k as int) =~= all);
    r
}

fn fit_columns(rows: &Vec<Vec<String>>, width: usize) -> (r: Vec<usize>)
    ensures
        r@ == table_widths(rows.deep_view(), width),
{
    let n: usize = count_cols(rows);
    let mut widths: Vec<usize> = Vec::new();
    let mut i: usize = 0;
    while i < n
        invariant
            i <= n,
            n == col_count(rows.deep_view()),
            widths@ =~= col_widths(rows.deep_view()).take(i as int),
        decreases n - i,
    {
        widths.push(width_of_col(rows, i));
        i = i + 1;
    }
    assert(widths@ =~= col_widths(rows.deep_view()));
    let border: u128 = 3 * (n as u128) + 1;
    if border > width as u128 {
        shrink_columns(&mut widths, 0);
    } else {
        let budget: usize = width - border as usize;
        if total(&widths) > budget as u128 {
            shrink_columns(&mut widths, budget);
        }
    }
    widths
}

// ── Drawing ──

/// The first `k` columns of a border.
pub open spec fn border_upto(widths: Seq<usize>, k: nat, mid: char, right: char) -> Seq<char>
    decreases k,
{
    if k == 0 {
        Seq::empty()
    } else {
        border_upto(widths, (k - 1) as nat, mid, right) + text::repeated(
            '─',
            (widths[k - 1] + 2) as nat,
        ) + seq![
            if k == widths.len() {
                right
            } else {
                mid
            },
        ]
    }
}

/// A border of a table.
pub open spec fn border(widths: Seq<usize>, left: char, mid: char, right: char) -> Seq<char> {
    seq![left] + border_upto(widths, widths.len(), mid, right)
}

pub fn table_border(widths: &Vec<usize>, left: char, mid: char, right: char) -> (r: String)
    requires
        forall|i: int| 0 <= i < widths@.len() ==> (#[trigger] widths@[i]) + 2 <= usize::MAX,
    ensures
        r@ == border(widths@, left, mid, right),
{
    let mut r = String::new();
    r.push(left);
    assert(r@ =~= seq![left] + border_upto(widths@, 0, mid, right));
    let mut i: usize = 0;
    while i < widths.len()
        invariant
            i <= widths@.len(),
            forall|i: int| 0 <= i < widths@.len() ==> (#[trigger] widths@[i]) + 2 <= usize::MAX,
            r@ == seq![left] + border_upto(widths@, i as nat, mid, right),
        decreases widths@.len() - i,
    {
        let ghost before = r@;
        let w: usize = widths[i];
        r.append(text::repeat_char('─', w + 2).as_str());
        let end = if i + 1 == widths.len() {
            right
        } else {
            mid
        };
        r.push(end);
        assert(r@ =~= seq![left] + border_upto(widths@, (i + 1) as nat, mid, right));
        i = i + 1;
    }
    r
}

/// The words of a cell that fit in `inner` columns behind `spans`, which take
/// `used`, with the columns that they take. A first word that does not fit is
/// cut.
pub open spec fn cell_from(
    spans: Seq<SpanView>,
    used: nat,
    words: Seq<markdown::WordView>,
    inner: usize,
) -> (Seq<SpanView>, nat)
    decreases words.len(),
{
    if words.len() == 0 {
        (spans, used)
    } else {
        let w = words[0];
        let n = width::text_width(w.text);
        let gap = if spans.len() > 0 {
            1nat
        } else {
            0
        };
        if used + gap + n > inner {
            if spans.len() == 0 && inner > 0 {
                (
                    seq![
                        SpanView {
                            text: markdown_render::truncated(w.text, inner),
                            style: w.style,
                        },
                    ],
                    inner as nat,
                )
            } else {
                (spans, used)
            }
        } else {
            let spaced = if spans.len() > 0 {
                spans.push(style::unstyled(" "@))
            } else {
                spans
            };
            cell_from(
                spaced.push(markdown_render::word_span(w)),
                used + gap + n as nat,
                words.drop_first(),
                inner,
            )
        }
    }
}

/// A cell in a column of `inner` columns, with the columns that it takes.
pub open spec fn cell(s: Seq<char>, inner: usize, base: Style) -> (Seq<SpanView>, nat) {
    cell_from(Seq::empty(), 0, markdown::words_of(s, base), inner)
}

pub fn table_cell_spans(s: &str, inner_width: usize, base_style: Style) -> (r: (Vec<Span>, usize))
    ensures
        r.0.deep_view() == cell(s@, inner_width, base_style).0,
        r.1 == cell(s@, inner_width, base_style).1,
        r.1 <= inner_width,
{
    let words = markdown::inline_words(s, base_style);
    let ghost all = words.deep_view();
    let ghost whole = cell(s@, inner_width, base_style);
    let mut spans: Vec<Span> = Vec::new();
    let mut used: usize = 0;
    let mut i: usize = 0;
    assert(spans.deep_view() =~= Seq::<SpanView>::empty());
    assert(all.skip(0) =~= all);
    while i < words.len()
        invariant
            i <= words@.len(),
            all == words.deep_view(),
            used <= inner_width,
            whole == cell(s@, inner_width, base_style),
            whole == cell_from(spans.deep_view(), used as nat, all.skip(i as int), inner_width),
        decreases words@.len() - i,
    {
        let ghost held = spans.deep_view();
        assert(held.len() == spans@.len());
        let word = &words[i];
        assert(all.skip(i as int)[0] == word.deep_view());
        assert(all.skip(i as int).drop_first() =~= all.skip(i + 1));
        let n: usize = width::display_width(word.text.as_str());
        let gap: usize = if spans.len() > 0 {
            1
        } else {
            0
        };
        let left: usize = inner_width - used;
        if left < gap || left - gap < n {
            if spans.len() == 0 && inner_width > 0 {
                let cut = markdown_render::truncate_display(word.text.as_str(), inner_width);
                style::push_span(&mut spans, Span::styled(cut, word.style));
                assert(spans.deep_view() =~= whole.0);
                return (spans, inner_width);
            }
            return (spans, used);
        }
        if spans.len() > 0 {
            style::push_span(&mut spans, Span::raw(" "));
        }
        style::push_span(&mut spans, Span::styled(word.text.clone(), word.style));
        used = used + gap + n;
        i = i + 1;
    }
    assert(all.skip(i as int) =~= Seq::<markdown::WordView>::empty());
    (spans, used)
}

/// A bar between cells.
pub open spec fn bar() -> SpanView {
    SpanView { text: "│"@, style: style::colored(Color::Cyan) }
}

/// A cell between its bars, with spaces up to the width of its column.
pub open spec fn boxed(s: Seq<char>, w: usize, base: Style) -> Seq<SpanView> {
    let (spans, used) = cell(s, w, base);
    let pad = if w > used {
        seq![style::unstyled(text::repeated(' ', (w - used) as nat))]
    } else {
        Seq::empty()
    };
    seq![bar(), style::unstyled(" "@)] + spans + pad + seq![style::unstyled(" "@), bar()]
}

/// The first `k` cells of a row; a cell that is missing is empty.
pub open spec fn row_upto(row: Seq<Seq<char>>, widths: Seq<usize>, k: nat, base: Style) -> Seq<
    SpanView,
>
    decreases k,
{
    if k == 0 {
        seq![style::unstyled("  "@)]
    } else {
        let s = if k - 1 < row.len() {
            row[k - 1]
        } else {
            ""@
        };
        row_upto(row, widths, (k - 1) as nat, base) + boxed(s, widths[k - 1], base)
    }
}

/// A row of a table.
pub open spec fn row_line(row: Seq<Seq<char>>, widths: Seq<usize>, base: Style) -> LineView {
    row_upto(row, widths, widths.len(), base)
}

fn bar_span() -> (r: Span)
    ensures
        r.deep_view() == bar(),
{
    Span::styled("│".to_owned(), Style::default().fg(Color::Cyan))
}

fn push_boxed(spans: &mut Vec<Span>, s: &str, w: usize, base: Style)
    ensures
        final(spans).deep_view() == old(spans).deep_view() + boxed(s@, w, base),
{
    let ghost before = spans.deep_view();
    style::push_span(spans, bar_span());
    style::push_span(spans, Span::raw(" "));
    let (mut inner, used) = table_cell_spans(s, w, base);
    let ghost held = spans.deep_view();
    let ghost iv = inner.deep_view();
    spans.append(&mut inner);
    assert(spans.deep_view() =~= held + iv);
    if w > used {
        style::push_span(spans, Span::raw(text::repeat_char(' ', w - used).as_str()));
    }
    style::push_span(spans, Span::raw(" "));
    style::push_span(spans, bar_span());
    assert(spans.deep_view() =~= before + boxed(s@, w, base));
}

pub fn table_row_line(row: &Vec<String>, widths: &Vec<usize>, style: Style) -> (r: Line)
    ensures
        r.deep_view() == row_line(row.deep_view(), widths@, style),
{
    let mut spans: Vec<Span> = vec![Span::raw("  ")];
    assert(spans.deep_view() =~= row_upto(row.deep_view(), widths@, 0, style));
    let mut i: usize = 0;
    while i < widths.len()
        invariant
            i <= widths@.len(),
            spans.deep_view() == row_upto(row.deep_view(), widths@, i as nat, style),
        decreases widths@.len() - i,
    {
        assert(row.deep_view().len() == row@.len());
        let s = if i < row.len() {
            assert(row.deep_view()[i as int] == row@[i as int]@);
            row[i].as_str()
        } else {
            ""
        };
        push_boxed(&mut spans, s, widths[i], style);
        i = i + 1;
    }
    Line::from_spans(spans)
}

/// The style of the first row.
pub open spec fn header_style() -> Style {
    style::with_modifier(style::colored(Color::White), Modifier::Bold)
}

/// A border as a line.
pub open spec fn border_line(widths: Seq<usize>, left: char, mid: char, right: char) -> LineView {
    style::one_span("  "@ + border(widths, left, mid, right), style::colored(Color::Cyan))
}

/// The first `k` rows of a table, with a border behind the first.
pub open spec fn rows_upto(rows: Seq<Seq<Seq<char>>>, widths: Seq<usize>, k: nat) -> Seq<LineView>
    decreases k,
{
    if k == 0 {
        Seq::empty()
    } else {
        let before = rows_upto(rows, widths, (k - 1) as nat);
        if k == 1 {
            before.push(row_line(rows[0], widths, header_style())).push(
                border_line(widths, '├', '┼', '┤'),
            )
        } else {
            before.push(row_line(rows[k - 1], widths, style::colored(Color::White)))
        }
    }
}

/// A table with its borders, and an empty line.
pub open spec fn table_lines(rows: Seq<Seq<Seq<char>>>, max: usize) -> Seq<LineView> {
    if rows.len() == 0 || col_count(rows) == 0 {
        Seq::empty()
    } else {
        let widths = table_widths(rows, max);
        seq![border_line(widths, '┌', '┬', '┐')] + rows_upto(rows, widths, rows.len()) + seq![
            border_line(widths, '└', '┴', '┘'),
            style::blank(),
        ]
    }
}

fn push_border(out: &mut Vec<Line>, widths: &Vec<usize>, left: char, mid: char, right: char)
    requires
        forall|i: int| 0 <= i < widths@.len() ==> (#[trigger] widths@[i]) + 2 <= usize::MAX,
    ensures
        final(out).deep_view() == old(out).deep_view().push(
            border_line(widths@, left, mid, right),
        ),
{
    let s = text::cat2("  ", table_border(widths, left, mid, right).as_str());
    style::push_line(out, Line::of(s, Style::default().fg(Color::Cyan)));
}

pub fn render_table(rows: &Vec<Vec<String>>, out: &mut Vec<Line>, width: usize)
    ensures
        final(out).deep_view() == old(out).deep_view() + table_lines(rows.deep_view(), width),
{
    let ghost before = out.deep_view();
    let ghost all = rows.deep_view();
    assert(all.len() == rows@.len());
    assert(before + Seq::<LineView>::empty() =~= before);
    if rows.len() == 0 || count_cols(rows) == 0 {
        return ;
    }
    let widths = fit_columns(rows, width);
    proof {
        lemma_widths_bounded(all, width);
    }
    push_border(out, &widths, '┌', '┬', '┐');
    let ghost head = out.deep_view();
    let mut i: usize = 0;
    assert(head + Seq::<LineView>::empty() =~= head);
    while i < rows.len()
        invariant
            i <= rows@.len(),
            all == rows.deep_view(),
            forall|i: int| 0 <= i < widths@.len() ==> (#[trigger] widths@[i]) + 2 <= usize::MAX,
            out.deep_view() == head + rows_upto(all, widths@, i as nat),
        decreases rows@.len() - i,
    {
        assert(all[i as int] == rows@[i as int].deep_view());
        if i == 0 {
            let style = Style::default().fg(Color::White).add_modifier(Modifier::Bold);
            style::push_line(out, table_row_line(&rows[i], &widths, style));
            push_border(out, &widths, '├', '┼', '┤');
        } else {
            let style = Style::default().fg(Color::White);
            style::push_line(out, table_row_line(&rows[i], &widths, style));
        }
        assert(out.deep_view() =~= head + rows_upto(all, widths@, (i + 1) as nat));
        i = i + 1;
    }
    push_border(out, &widths, '└', '┴', '┘');
    style::push_line(out, Line::blank());
    assert(out.deep_view() =~= before + table_lines(all, width));
}

// ── Laws ──

/// A table has as many columns as its longest row.
pub proof fn columns_are_counted(rows: Seq<Seq<Seq<char>>>, i: int)
    ensures
        0 <= i < rows.len() ==> rows[i].len() <= col_count(rows),
        rows.len() > 0 ==> exists|j: int|
            0 <= j < rows.len() && (#[trigger] rows[j]).len() == col_count(rows),
    decreases rows.len(),
{
    if rows.len() > 0 {
        let rest = rows.drop_last();
        columns_are_counted(rest, i);
        assert(rows[rows.len() - 1] == rows.last());
        if rest.len() > 0 {
            let j = choose|j: int| 0 <= j < rest.len() && (#[trigger] rest[j]).len() == col_count(rest);
            assert(rows[j] == rest[j]);
        }
        if 0 <= i < rest.len() {
            assert(rest[i] == rows[i]);
        }
    }
}

/// A column asks for the width of its widest cell, and for at least two.
pub proof fn columns_hold_their_cells(rows: Seq<Seq<Seq<char>>>, i: int, k: int)
    requires
        0 <= i,
    ensures
        col_width(rows, i) >= 2,
        0 <= k < rows.len() && i < rows[k].len() ==> width::text_width(
            markdown_render::visible(rows[k][i]),
        ) <= col_width(rows, i),
        col_width(rows, i) == 2 || exists|j: int|
            0 <= j < rows.len() && i < (#[trigger] rows[j]).len() && width::text_width(
                markdown_render::visible(rows[j][i]),
            ) == col_width(rows, i),
    decreases rows.len(),
{
    if rows.len() > 0 {
        let rest = rows.drop_last();
        columns_hold_their_cells(rest, i, k);
        assert(rows[rows.len() - 1] == rows.last());
        if 0 <= k < rest.len() {
            assert(rest[k] == rows[k]);
        }
        if col_width(rest, i) != 2 {
            let j = choose|j: int|
                0 <= j < rest.len() && i < (#[trigger] rest[j]).len() && width::text_width(
                    markdown_render::visible(rest[j][i]),
                ) == col_width(rest, i);
            assert(rows[j] == rest[j]);
        }
    }
}

/// A table that fits has the widths that its columns ask for; one that does not
/// fit is made narrower until it does, or until every column is as narrow as
/// can be.
pub proof fn tables_fit_where_they_can(rows: Seq<Seq<Seq<char>>>, max: usize)
    ensures
        table_widths(rows, max).len() == col_count(rows),
        3 * col_count(rows) + 1 + sum(col_widths(rows)) <= max ==> table_widths(rows, max)
            == col_widths(rows),
        3 * col_count(rows) + 1 + sum(table_widths(rows, max)) <= max || forall|i: int|
            0 <= i < col_count(rows) ==> (#[trigger] table_widths(rows, max)[i]) <= 2,
{
    let asked = col_widths(rows);
    let border = overhead(col_count(rows));
    let budget = if border > max {
        0
    } else {
        (max - border) as nat
    };
    shrinking_is_fair(asked, budget);
    if border > max && sum(shrunk(asked, budget)) <= budget {
        assert forall|i: int| 0 <= i < asked.len() implies (#[trigger] shrunk(asked, budget)[i])
            <= 2 by {
            lemma_sum_bounds(shrunk(asked, budget), i);
        }
    }
}

/// The sum of widths adds up, column by column.
pub proof fn widths_add_up(a: Seq<usize>, b: Seq<usize>, w: usize)
    ensures
        sum(a + b) == sum(a) + sum(b),
        sum(seq![w]) == w,
    decreases b.len(),
{
    let none = Seq::<usize>::empty();
    assert(seq![w].drop_last() =~= none);
    assert(sum(none) == 0);
    if b.len() == 0 {
        assert(a + b =~= a);
    } else {
        widths_add_up(a, b.drop_last(), w);
        assert((a + b).drop_last() =~= a + b.drop_last());
    }
}

/// Every row of a table is drawn, in order, between its borders: the first as
/// the header, with a border behind it.
pub proof fn rows_are_drawn(rows: Seq<Seq<Seq<char>>>, max: usize, i: int)
    requires
        0 <= i < rows.len(),
        col_count(rows) > 0,
    ensures
        ({
            let all = table_lines(rows, max);
            let widths = table_widths(rows, max);
            &&& all.len() == rows.len() + 4
            &&& all[1] == row_line(rows[0], widths, header_style())
            &&& i > 0 ==> all[i + 2] == row_line(rows[i], widths, style::colored(Color::White))
            &&& all.last() == style::blank()
        }),
{
    let widths = table_widths(rows, max);
    lemma_rows_upto(rows, widths, rows.len(), i);
    lemma_rows_upto(rows, widths, rows.len(), 0);
}

proof fn lemma_rows_upto(rows: Seq<Seq<Seq<char>>>, widths: Seq<usize>, k: nat, i: int)
    requires
        0 < k <= rows.len(),
        0 <= i < k,
    ensures
        rows_upto(rows, widths, k).len() == k + 1,
        rows_upto(rows, widths, k)[0] == row_line(rows[0], widths, header_style()),
        i > 0 ==> rows_upto(rows, widths, k)[i + 1] == row_line(
            rows[i],
            widths,
            style::colored(Color::White),
        ),
    decreases k,
{
    if k > 1 {
        if i < k - 1 {
            lemma_rows_upto(rows, widths, (k - 1) as nat, i);
        } else {
            lemma_rows_upto(rows, widths, (k - 1) as nat, 0);
        }
    } else {
        assert(rows_upto(rows, widths, 0).len() == 0);
    }
}

/// A table without cells is not drawn.
pub proof fn empty_tables_are_not_drawn(max: usize)
    ensures
        table_lines(Seq::empty(), max).len() == 0,
{
}

/// A row is drawn cell by cell; a cell that it lacks is empty.
pub proof fn rows_are_drawn_by_cells(row: Seq<Seq<char>>, widths: Seq<usize>, k: nat, base: Style)
    requires
        0 < k <= widths.len(),
    ensures
        ({
            let before = row_upto(row, widths, (k - 1) as nat, base);
            let s = if k <= row.len() {
                row[k - 1]
            } else {
                Seq::empty()
            };
            row_upto(row, widths, k, base) == before + boxed(s, widths[k - 1], base)
        }),
{
    reveal_strlit("");
    assert(""@ =~= Seq::<char>::empty());
}

/// The columns that words take, with a column between two.
pub open spec fn needed(words: Seq<markdown::WordView>) -> nat
    decreases words.len(),
{
    if words.len() == 0 {
        0
    } else {
        width::text_width(words[0].text) as nat + (if words.len() > 1 {
            1nat
        } else {
            0
        }) + needed(words.drop_first())
    }
}

/// The words among the spans of a cell: the first, and every second behind it.
pub open spec fn words_in_cell(spans: Seq<SpanView>) -> Seq<SpanView>
    decreases spans.len(),
{
    if spans.len() == 0 {
        Seq::empty()
    } else if spans.len() == 1 {
        spans
    } else {
        words_in_cell(spans.take(spans.len() - 2)).push(spans.last())
    }
}

proof fn lemma_cell_from(
    spans: Seq<SpanView>,
    used: nat,
    words: Seq<markdown::WordView>,
    inner: usize,
)
    requires
        spans.len() == 0 || spans.len() % 2 == 1,
        spans.len() == 0 ==> used == 0,
        used + (if spans.len() > 0 && words.len() > 0 {
            1nat
        } else {
            0
        }) + needed(words) <= inner,
    ensures
        words_in_cell(cell_from(spans, used, words, inner).0) == words_in_cell(spans)
            + words.map_values(|w: markdown::WordView| markdown_render::word_span(w)),
        cell_from(spans, used, words, inner).1 == used + (if spans.len() > 0 && words.len() > 0 {
            1nat
        } else {
            0
        }) + needed(words),
    decreases words.len(),
{
    let shown = words.map_values(|w: markdown::WordView| markdown_render::word_span(w));
    if words.len() == 0 {
        assert(words_in_cell(spans) + shown =~= words_in_cell(spans));
    } else {
        let w = words[0];
        let n = width::text_width(w.text);
        let rest = words.drop_first();
        let shown_rest = rest.map_values(|w: markdown::WordView| markdown_render::word_span(w));
        let span = markdown_render::word_span(w);
        let gap = if spans.len() > 0 {
            1nat
        } else {
            0
        };
        let spaced = if spans.len() > 0 {
            spans.push(style::unstyled(" "@))
        } else {
            spans
        };
        let next = spaced.push(span);
        if spans.len() > 0 {
            assert(next.take(next.len() - 2) =~= spans);
        } else {
            assert(next =~= seq![span]);
            assert(words_in_cell(spans) =~= Seq::<SpanView>::empty());
        }
        assert(words_in_cell(next) =~= words_in_cell(spans).push(span));
        lemma_cell_from(next, used + gap + n as nat, rest, inner);
        assert(words_in_cell(next) + shown_rest =~= words_in_cell(spans) + shown);
    }
}

/// A cell whose words fit in its column shows all of them, in order and in
/// their style.
pub proof fn cells_that_fit_are_whole(s: Seq<char>, inner: usize, base: Style)
    requires
        needed(markdown::words_of(s, base)) <= inner,
    ensures
        words_in_cell(cell(s, inner, base).0) == markdown::words_of(s, base).map_values(
            |w: markdown::WordView| markdown_render::word_span(w),
        ),
        cell(s, inner, base).1 == needed(markdown::words_of(s, base)),
{
    let words = markdown::words_of(s, base);
    let none = Seq::<SpanView>::empty();
    lemma_cell_from(none, 0, words, inner);
    let shown = words.map_values(|w: markdown::WordView| markdown_render::word_span(w));
    assert(words_in_cell(none) + shown =~= shown);
}

/// A cell stands between bars, with space behind it up to the width of its
/// column.
pub proof fn cells_are_boxed(s: Seq<char>, w: usize, base: Style)
    ensures
        ({
            let all = boxed(s, w, base);
            let (spans, used) = cell(s, w, base);
            &&& all[0] == bar()
            &&& all.last() == bar()
            &&& all.subrange(2, 2 + spans.len() as int) == spans
            &&& w > used ==> all[2 + spans.len() as int].text == text::repeated(' ', (w - used) as nat)
        }),
{
    let all = boxed(s, w, base);
    let (spans, used) = cell(s, w, base);
    assert(all.subrange(2, 2 + spans.len() as int) =~= spans);
}

proof fn lemma_border_upto(widths: Seq<usize>, k: nat, mid: char, right: char)
    requires
        k <= widths.len(),
    ensures
        border_upto(widths, k, mid, right).len() == sum(widths.take(k as int)) + 3 * k,
        k > 0 ==> border_upto(widths, k, mid, right).last() == (if k == widths.len() {
            right
        } else {
            mid
        }),
    decreases k,
{
    if k > 0 {
        lemma_border_upto(widths, (k - 1) as nat, mid, right);
        assert(widths.take(k as int).drop_last() =~= widths.take(k - 1));
        assert(widths.take(k as int).last() == widths[k - 1]);
    } else {
        assert(widths.take(0) =~= Seq::<usize>::empty());
    }
}

/// A border is as wide as the columns of its table with what stands between
/// them, and has a corner at each end.
pub proof fn borders_span_the_table(widths: Seq<usize>, left: char, mid: char, right: char)
    ensures
        border(widths, left, mid, right).len() == sum(widths) + 3 * widths.len() + 1,
        border(widths, left, mid, right)[0] == left,
        widths.len() > 0 ==> border(widths, left, mid, right).last() == right,
{
    lemma_border_upto(widths, widths.len(), mid, right);
    assert(widths.take(widths.len() as int) =~= widths);
}

} // verus!
