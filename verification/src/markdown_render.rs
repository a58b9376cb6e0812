//! Markdown as lines of styled text that fit the terminal.
use vstd::prelude::*;
use crate::markdown;
use crate::markdown::StyledWord;
use crate::number;
use crate::style;
use crate::style::{Color, Line, LineView, Modifier, Span, SpanView, Style};
use crate::table;
use crate::text;
use crate::width;

verus! {

pub const INDENT: &'static str = "  ";

/// The prefix of a quotation.
pub const QUOTE: &'static str = "  │ ";

// ── Widths ──

/// One more than the greatest width.
pub const WIDE: u128 = 0x1_0000_0000_0000_0000;

/// `n`, or `WIDE` where `n` is more than any width.
pub open spec fn clamped(n: nat) -> nat {
    if n < WIDE {
        n
    } else {
        WIDE as nat
    }
}

fn add_columns(a: u128, b: usize) -> (r: u128)
    requires
        a <= WIDE,
    ensures
        r == clamped((a + b) as nat),
{
    let sum: u128 = a + b as u128;
    if sum < WIDE {
        sum
    } else {
        WIDE
    }
}

/// The words of a line without their marks.
pub open spec fn visible(s: Seq<char>) -> Seq<char> {
    text::joined(
        markdown::words_of(s, style::plain()).map_values(|w: markdown::WordView| w.text),
        " "@,
    )
}

pub fn visible_plain(s: &str) -> (r: String)
    ensures
        r@ == visible(s@),
{
    let words = markdown::inline_words(s, Style::default());
    let ghost all = words.deep_view();
    let mut texts: Vec<String> = Vec::new();
    let mut i: usize = 0;
    while i < words.len()
        invariant
            i <= words@.len(),
            texts@.len() == i,
            forall|j: int| 0 <= j < i ==> (#[trigger] texts@[j])@ == words@[j].text@,
        decreases words@.len() - i,
    {
        texts.push(words[i].text.clone());
        i = i + 1;
    }
    assert(texts.deep_view() =~= all.map_values(|w: markdown::WordView| w.text));
    text::join(&texts, " ")
}

/// The columns that a line takes without its marks.
pub fn visible_width(s: &str) -> (r: usize)
    ensures
        r == width::text_width(visible(s@)),
{
    width::display_width(visible_plain(s).as_str())
}

/// The start of `s` that takes at most `left` columns, and an ellipsis where
/// more follows.
pub open spec fn cut_columns(s: Seq<char>, left: nat) -> Seq<char>
    decreases s.len(),
{
    if s.len() == 0 {
        Seq::empty()
    } else if width::columns(s[0]) > left {
        seq!['…']
    } else {
        seq![s[0]] + cut_columns(s.drop_first(), (left - width::columns(s[0])) as nat)
    }
}

/// `s` as far as it fits in `max` columns.
pub open spec fn truncated(s: Seq<char>, max: usize) -> Seq<char> {
    if width::text_width(s) <= max {
        s
    } else {
        cut_columns(
            s,
            if max == 0 {
                0
            } else {
                (max - 1) as nat
            },
        )
    }
}

pub fn truncate_display(s: &str, max_width: usize) -> (r: String)
    ensures
        r@ == truncated(s@, max_width),
{
    if width::display_width(s) <= max_width {
        return s.to_owned();
    }
    let v = text::chars_of(s);
    let mut left: usize = if max_width == 0 {
        0
    } else {
        max_width - 1
    };
    let ghost whole = cut_columns(v@, left as nat);
    let mut r = String::new();
    let mut i: usize = 0;
    assert(v@.skip(0) =~= v@);
    assert(r@ + whole =~= whole);
    while i < v.len()
        invariant
            i <= v@.len(),
            whole == truncated(s@, max_width),
            whole == r@ + cut_columns(v@.skip(i as int), left as nat),
        decreases v@.len() - i,
    {
        let ghost rest = v@.skip(i as int);
        let ghost before = r@;
        let n: usize = width::columns_of(v[i]);
        if n > left {
            r.push('…');
            assert(r@ =~= before + seq!['…']);
            return r;
        }
        r.push(v[i]);
        left = left - n;
        assert(rest.drop_first() =~= v@.skip(i + 1));
        assert(before + (seq![rest[0]] + cut_columns(v@.skip(i + 1), left as nat)) =~= r@
            + cut_columns(v@.skip(i + 1), left as nat));
        i = i + 1;
    }
    assert(v@.skip(i as int) =~= Seq::<char>::empty());
    assert(r@ + Seq::<char>::empty() =~= r@);
    r
}

/// `s` with spaces behind it up to `target` columns; a wider one is cut.
pub fn pad_display(s: &str, target: usize) -> (r: String)
    ensures
        r@ == (if width::text_width(s@) >= target {
            truncated(s@, target)
        } else {
            s@ + text::repeated(' ', (target - width::text_width(s@)) as nat)
        }),
{
    let w: usize = width::display_width(s);
    if w >= target {
        truncate_display(s, target)
    } else {
        text::cat2(s, text::repeat_char(' ', target - w).as_str())
    }
}

// ── Wrapping ──

/// How many characters at the start of `s` take at most `left` columns.
pub open spec fn fitting_chars(s: Seq<char>, left: nat) -> nat
    decreases s.len(),
{
    if s.len() == 0 || width::columns(s[0]) > left {
        0
    } else {
        1 + fitting_chars(s.drop_first(), (left - width::columns(s[0])) as nat)
    }
}

/// The length of the first chunk of `s`: what fits, and at least one
/// character.
pub open spec fn chunk_len(s: Seq<char>, max: nat) -> nat {
    if fitting_chars(s, max) == 0 {
        1
    } else {
        fitting_chars(s, max)
    }
}

proof fn lemma_fitting(s: Seq<char>, left: nat)
    ensures
        fitting_chars(s, left) <= s.len(),
    decreases s.len(),
{
    if s.len() > 0 && width::columns(s[0]) <= left {
        lemma_fitting(s.drop_first(), (left - width::columns(s[0])) as nat);
    }
}

/// `s` in chunks, each of which fits in `max` columns or is one character.
pub open spec fn chunks(s: Seq<char>, max: nat) -> Seq<Seq<char>>
    decreases s.len(),
    when true
    via chunks_decreases
{
    if s.len() == 0 {
        Seq::empty()
    } else {
        let n = chunk_len(s, max) as int;
        seq![s.take(n)] + chunks(s.skip(n), max)
    }
}

#[via_fn]
proof fn chunks_decreases(s: Seq<char>, max: nat) {
    lemma_fitting(s, max);
}

/// The chunks of a line of code.
pub open spec fn line_chunks(line: Seq<char>, max: usize) -> Seq<Seq<char>> {
    if max == 0 || width::text_width(line) <= max {
        seq![line]
    } else {
        chunks(line, max as nat)
    }
}

proof fn lemma_chunks_hold(s: Seq<char>, max: nat)
    ensures
        text::joined(chunks(s, max), Seq::empty()) == s,
    decreases s.len(),
{
    let none = Seq::<char>::empty();
    if s.len() == 0 {
        assert(s =~= none);
    } else {
        lemma_fitting(s, max);
        let n = chunk_len(s, max) as int;
        lemma_chunks_hold(s.skip(n), max);
        let first = seq![s.take(n)];
        let rest = chunks(s.skip(n), max);
        lemma_join_first(s.take(n), rest);
        assert(s.take(n) + s.skip(n) =~= s);
    }
}

proof fn lemma_join_first(first: Seq<char>, rest: Seq<Seq<char>>)
    ensures
        text::joined(seq![first] + rest, Seq::empty()) == first + text::joined(rest, Seq::empty()),
    decreases rest.len(),
{
    let none = Seq::<char>::empty();
    let all = seq![first] + rest;
    if rest.len() == 0 {
        assert(all =~= seq![first]);
        assert(all.drop_last() =~= Seq::<Seq<char>>::empty());
        assert(text::joined(all, none) =~= first + text::joined(rest, none));
    } else {
        lemma_join_first(first, rest.drop_last());
        assert(all.drop_last() =~= seq![first] + rest.drop_last());
        assert(text::joined(all, none) =~= first + text::joined(rest, none));
    }
}

/// Wrapping a line drops no characters: its chunks put together are the line.
pub proof fn wrapping_drops_nothing(line: Seq<char>, max: usize)
    ensures
        text::joined(line_chunks(line, max), Seq::empty()) == line,
{
    if max == 0 || width::text_width(line) <= max {
        let none = Seq::<Seq<char>>::empty();
        lemma_join_first(line, none);
        assert(seq![line] + none =~= seq![line]);
        assert(line + text::joined(none, Seq::empty()) =~= line);
    } else {
        lemma_chunks_hold(line, max as nat);
    }
}

/// The line in chunks that fit in `width` columns.
pub fn wrap_line_chunks(line: &str, width: usize) -> (r: Vec<String>)
    ensures
        r.deep_view() == line_chunks(line@, width),
        text::joined(r.deep_view(), Seq::empty()) == line@,
{
    proof {
        wrapping_drops_nothing(line@, width);
    }
    if width == 0 || width::display_width(line) <= width {
        let r: Vec<String> = vec![line.to_owned()];
        assert(r.deep_view() =~= seq![line@]);
        return r;
    }
    let v = text::chars_of(line);
    let ghost whole = chunks(v@, width as nat);
    let mut r: Vec<String> = Vec::new();
    let mut start: usize = 0;
    assert(v@.skip(0) =~= v@);
    assert(r.deep_view() + whole =~= whole);
    while start < v.len()
        invariant
            start <= v@.len(),
            v@ == line@,
            whole == r.deep_view() + chunks(v@.skip(start as int), width as nat),
        decreases v@.len() - start,
    {
        let ghost rest = v@.skip(start as int);
        let ghost before = r.deep_view();
        let mut end: usize = start;
        let mut left: usize = width;
        assert(rest.skip(0) =~= rest);
        while end < v.len() && width::columns_of(v[end]) <= left
            invariant
                start <= end <= v@.len(),
                rest == v@.skip(start as int),
                fitting_chars(rest, width as nat) == (end - start) + fitting_chars(
                    v@.skip(end as int),
                    left as nat,
                ),
            decreases v@.len() - end,
        {
            assert(v@.skip(end as int).drop_first() =~= v@.skip(end + 1));
            left = left - width::columns_of(v[end]);
            end = end + 1;
        }
        if end == start {
            end = start + 1;
        }
        let chunk = text::string_of(&v, start, end);
        assert(chunk@ =~= rest.take(end - start));
        assert(rest.skip(end - start) =~= v@.skip(end as int));
        let ghost cv = chunk@;
        r.push(chunk);
        assert(r.deep_view() =~= before.push(cv));
        assert(before + (seq![cv] + chunks(v@.skip(end as int), width as nat)) =~= before.push(cv)
            + chunks(v@.skip(end as int), width as nat));
        start = end;
    }
    assert(v@.skip(start as int) =~= Seq::<char>::empty());
    assert(r.deep_view() + Seq::<Seq<char>>::empty() =~= r.deep_view());
    r
}

/// The columns of the characters of `s`.
pub open spec fn total_columns(s: Seq<char>) -> nat
    decreases s.len(),
{
    if s.len() == 0 {
        0
    } else {
        width::columns(s[0]) as nat + total_columns(s.drop_first())
    }
}

proof fn lemma_fitting_columns(s: Seq<char>, left: nat)
    ensures
        total_columns(s.take(fitting_chars(s, left) as int)) <= left,
    decreases s.len(),
{
    lemma_fitting(s, left);
    let n = fitting_chars(s, left) as int;
    if n > 0 {
        let rest = s.drop_first();
        let less = (left - width::columns(s[0])) as nat;
        lemma_fitting_columns(rest, less);
        assert(s.take(n).drop_first() =~= rest.take(n - 1));
    } else {
        assert(s.take(n) =~= Seq::<char>::empty());
    }
}

/// Each chunk of a wrapped line fits, or is one character.
pub proof fn chunks_fit(s: Seq<char>, max: nat)
    ensures
        forall|i: int|
            0 <= i < chunks(s, max).len() ==> (#[trigger] chunks(s, max)[i]).len() == 1
                || total_columns(chunks(s, max)[i]) <= max,
    decreases s.len(),
{
    if s.len() > 0 {
        lemma_fitting(s, max);
        lemma_fitting_columns(s, max);
        let n = chunk_len(s, max) as int;
        let rest = chunks(s.skip(n), max);
        chunks_fit(s.skip(n), max);
        assert forall|i: int| 0 <= i < chunks(s, max).len() implies (#[trigger] chunks(
            s,
            max,
        )[i]).len() == 1 || total_columns(chunks(s, max)[i]) <= max by {
            if i == 0 {
                assert(chunks(s, max)[0] == s.take(n));
            } else {
                assert(chunks(s, max)[i] == rest[i - 1]);
            }
        }
    }
}

/// A word as it is shown.
pub open spec fn word_span(w: markdown::WordView) -> SpanView {
    SpanView { text: w.text, style: w.style }
}

/// The lines that take up `words`, where `current` is the line so far and
/// `used` its columns. A word that does not fit behind another starts a new
/// line behind the prefix `cont`.
pub open spec fn wrap_from(
    current: LineView,
    used: nat,
    words: Seq<markdown::WordView>,
    max: usize,
    cont: Seq<char>,
) -> Seq<LineView>
    decreases words.len(),
{
    if words.len() == 0 {
        if current.len() > 1 {
            seq![current]
        } else {
            Seq::empty()
        }
    } else {
        let w = words[0];
        let n = width::text_width(w.text);
        let rest = words.drop_first();
        if current.len() > 1 && used + 1 + n > max {
            seq![current] + wrap_from(
                seq![style::unstyled(cont), word_span(w)],
                width::text_width(cont) as nat + n as nat,
                rest,
                max,
                cont,
            )
        } else if current.len() > 1 {
            wrap_from(
                current.push(style::unstyled(" "@)).push(word_span(w)),
                used + 1 + n as nat,
                rest,
                max,
                cont,
            )
        } else {
            wrap_from(current.push(word_span(w)), used + n as nat, rest, max, cont)
        }
    }
}

/// Words in lines of at most `max` columns, where that is possible. The first
/// line starts with `prefix`, the others with `cont`.
pub open spec fn wrapped(
    words: Seq<markdown::WordView>,
    max: usize,
    prefix: Seq<char>,
    cont: Seq<char>,
) -> Seq<LineView> {
    if words.len() == 0 {
        seq![seq![style::unstyled(prefix)]]
    } else {
        wrap_from(
            seq![style::unstyled(prefix)],
            width::text_width(prefix) as nat,
            words,
            max,
            cont,
        )
    }
}

/// A line of Markdown in lines that fit.
pub open spec fn wrapped_line(
    s: Seq<char>,
    max: usize,
    base: Style,
    prefix: Seq<char>,
    cont: Seq<char>,
) -> Seq<LineView> {
    wrapped(markdown::words_of(s, base), max, prefix, cont)
}

fn two_spans(a: Span, b: Span) -> (r: Vec<Span>)
    ensures
        r.deep_view() == seq![a.deep_view(), b.deep_view()],
{
    let r = vec![a, b];
    assert(r.deep_view() =~= seq![a.deep_view(), b.deep_view()]);
    r
}

pub fn wrap_inline_words(words: &Vec<StyledWord>, width: usize, prefix: &str, cont_prefix: &str) -> (r:
    Vec<Line>)
    ensures
        r.deep_view() == wrapped(words.deep_view(), width, prefix@, cont_prefix@),
{
    let ghost all = words.deep_view();
    let mut lines: Vec<Line> = Vec::new();
    let mut current: Vec<Span> = vec![Span::raw(prefix)];
    assert(current.deep_view() =~= seq![style::unstyled(prefix@)]);
    if words.len() == 0 {
        style::push_line(&mut lines, Line::from_spans(current));
        assert(lines.deep_view() =~= seq![seq![style::unstyled(prefix@)]]);
        return lines;
    }
    let ghost whole = wrapped(all, width, prefix@, cont_prefix@);
    let ghost mut used: nat = width::text_width(prefix@) as nat;
    let mut shown: u128 = width::display_width(prefix) as u128;
    let mut i: usize = 0;
    assert(all.skip(0) =~= all);
    assert(lines.deep_view() + whole =~= whole);
    while i < words.len()
        invariant
            i <= words@.len(),
            all == words.deep_view(),
            current@.len() >= 1,
            i > 0 ==> current@.len() > 1,
            shown == clamped(used),
            whole == lines.deep_view() + wrap_from(
                current.deep_view(),
                used,
                all.skip(i as int),
                width,
                cont_prefix@,
            ),
        decreases words@.len() - i,
    {
        let ghost rest = all.skip(i as int);
        let ghost held = current.deep_view();
        let ghost done = lines.deep_view();
        assert(rest.drop_first() =~= all.skip(i + 1));
        let word = &words[i];
        assert(rest[0] == word.deep_view());
        let n: usize = width::display_width(word.text.as_str());
        let span = Span::styled(word.text.clone(), word.style);
        let needs_space = current.len() > 1;
        let with_space = add_columns(shown, 1);
        if needs_space && add_columns(with_space, n) > width as u128 {
            let full = Line::from_spans(current);
            style::push_line(&mut lines, full);
            current = two_spans(Span::raw(cont_prefix), span);
            shown = add_columns(width::display_width(cont_prefix) as u128, n);
            proof {
                used = width::text_width(cont_prefix@) as nat + n as nat;
                let next = wrap_from(current.deep_view(), used, all.skip(i + 1), width, cont_prefix@);
                assert(done + (seq![held] + next) =~= lines.deep_view() + next);
            }
        } else {
            if needs_space {
                style::push_span(&mut current, Span::raw(" "));
                shown = with_space;
                proof {
                    used = used + 1;
                }
            }
            style::push_span(&mut current, span);
            shown = add_columns(shown, n);
            proof {
                used = used + n as nat;
            }
        }
        assert(current.deep_view().len() == current@.len());
        i = i + 1;
    }
    assert(all.skip(i as int) =~= Seq::<markdown::WordView>::empty());
    let ghost done = lines.deep_view();
    let last = Line::from_spans(current);
    style::push_line(&mut lines, last);
    assert(lines.deep_view() =~= done + seq![last.deep_view()]);
    lines
}

pub fn wrap_inline_line_prefixed(
    s: &str,
    width: usize,
    base_style: Style,
    prefix: &str,
    cont_prefix: &str,
) -> (r: Vec<Line>)
    ensures
        r.deep_view() == wrapped_line(s@, width, base_style, prefix@, cont_prefix@),
{
    wrap_inline_words(&markdown::inline_words(s, base_style), width, prefix, cont_prefix)
}

pub fn wrap_inline_line(s: &str, width: usize, base_style: Style) -> (r: Vec<Line>)
    ensures
        r.deep_view() == wrapped_line(s@, width, base_style, INDENT@, INDENT@),
{
    wrap_inline_line_prefixed(s, width, base_style, INDENT, INDENT)
}

/// The words in a line: every second span, from the one behind the prefix.
pub open spec fn words_in(line: LineView) -> Seq<SpanView>
    decreases line.len(),
{
    if line.len() < 2 {
        Seq::empty()
    } else {
        words_in(line.take(line.len() - 2)).push(line.last())
    }
}

/// The words in lines.
pub open spec fn words_in_all(lines: Seq<LineView>) -> Seq<SpanView>
    decreases lines.len(),
{
    if lines.len() == 0 {
        Seq::empty()
    } else {
        words_in(lines[0]) + words_in_all(lines.drop_first())
    }
}

proof fn lemma_wrap_keeps(
    current: LineView,
    used: nat,
    words: Seq<markdown::WordView>,
    max: usize,
    cont: Seq<char>,
)
    requires
        current.len() == 1 || (current.len() > 1 && current.len() % 2 == 0),
        current.len() == 1 ==> words.len() > 0,
    ensures
        words_in_all(wrap_from(current, used, words, max, cont)) == words_in(current)
            + words.map_values(|w: markdown::WordView| word_span(w)),
    decreases words.len(),
{
    let shown = words.map_values(|w: markdown::WordView| word_span(w));
    if words.len() == 0 {
        let lines = seq![current];
        assert(lines.drop_first() =~= Seq::<LineView>::empty());
        assert(words_in_all(Seq::<LineView>::empty()) =~= Seq::<SpanView>::empty());
        assert(words_in_all(lines) =~= words_in(current) + shown);
    } else {
        let w = words[0];
        let n = width::text_width(w.text);
        let rest = words.drop_first();
        let shown_rest = rest.map_values(|w: markdown::WordView| word_span(w));
        assert(shown =~= seq![word_span(w)] + shown_rest);
        if current.len() > 1 && used + 1 + n > max {
            let next = seq![style::unstyled(cont), word_span(w)];
            let used_next = width::text_width(cont) as nat + n as nat;
            lemma_wrap_keeps(next, used_next, rest, max, cont);
            let after = wrap_from(next, used_next, rest, max, cont);
            let lines = seq![current] + after;
            assert(lines.drop_first() =~= after);
            assert(lines[0] == current);
            assert(next.take(0) =~= Seq::<SpanView>::empty());
            assert(words_in(next.take(0)) =~= Seq::<SpanView>::empty());
            assert(words_in(next) =~= seq![word_span(w)]);
            assert(words_in_all(lines) =~= words_in(current) + shown);
        } else if current.len() > 1 {
            let next = current.push(style::unstyled(" "@)).push(word_span(w));
            lemma_wrap_keeps(next, used + 1 + n as nat, rest, max, cont);
            assert(next.take(next.len() - 2) =~= current);
            assert(words_in(next) =~= words_in(current).push(word_span(w)));
            assert(words_in(next) + shown_rest =~= words_in(current) + shown);
        } else {
            let next = current.push(word_span(w));
            lemma_wrap_keeps(next, used + n as nat, rest, max, cont);
            assert(next.take(0) =~= Seq::<SpanView>::empty());
            assert(words_in(next.take(0)) =~= Seq::<SpanView>::empty());
            assert(words_in(next) =~= seq![word_span(w)]);
            assert(words_in(current) =~= Seq::<SpanView>::empty());
            assert(words_in(next) + shown_rest =~= words_in(current) + shown);
        }
    }
}

/// Wrapping keeps every word, in order and in its style.
pub proof fn wrapping_keeps_words(
    words: Seq<markdown::WordView>,
    max: usize,
    prefix: Seq<char>,
    cont: Seq<char>,
)
    ensures
        words_in_all(wrapped(words, max, prefix, cont)) == words.map_values(
            |w: markdown::WordView| word_span(w),
        ),
{
    let shown = words.map_values(|w: markdown::WordView| word_span(w));
    let first = seq![style::unstyled(prefix)];
    if words.len() == 0 {
        let lines = seq![first];
        assert(lines.drop_first() =~= Seq::<LineView>::empty());
        assert(words_in_all(Seq::<LineView>::empty()) =~= Seq::<SpanView>::empty());
        assert(words_in_all(lines) =~= shown);
    } else {
        lemma_wrap_keeps(first, width::text_width(prefix) as nat, words, max, cont);
        assert(words_in(first) + shown =~= shown);
    }
}

/// The columns of a line of words: its prefix, its words, and a column between
/// two words.
pub open spec fn taken(line: LineView) -> nat
    decreases line.len(),
{
    if line.len() == 0 {
        0
    } else if line.len() == 1 {
        width::text_width(line[0].text) as nat
    } else if line.len() == 2 {
        width::text_width(line[0].text) as nat + width::text_width(line[1].text) as nat
    } else {
        taken(line.take(line.len() - 2)) + 1 + width::text_width(line.last().text) as nat
    }
}

/// Whether a line fits, or holds a single word.
pub open spec fn fits(line: LineView, max: usize) -> bool {
    line.len() > 2 ==> taken(line) <= max
}

proof fn lemma_wrap_fits(
    current: LineView,
    used: nat,
    words: Seq<markdown::WordView>,
    max: usize,
    cont: Seq<char>,
)
    requires
        current.len() == 1 || (current.len() > 1 && current.len() % 2 == 0),
        used == taken(current),
        fits(current, max),
    ensures
        forall|i: int|
            0 <= i < wrap_from(current, used, words, max, cont).len() ==> fits(
                #[trigger] wrap_from(current, used, words, max, cont)[i],
                max,
            ),
    decreases words.len(),
{
    let all = wrap_from(current, used, words, max, cont);
    if words.len() == 0 {
        assert forall|i: int| 0 <= i < all.len() implies fits(#[trigger] all[i], max) by {
            assert(all[i] == current);
        }
    } else {
        let w = words[0];
        let n = width::text_width(w.text);
        let rest = words.drop_first();
        if current.len() > 1 && used + 1 + n > max {
            let next = seq![style::unstyled(cont), word_span(w)];
            let used_next = width::text_width(cont) as nat + n as nat;
            lemma_wrap_fits(next, used_next, rest, max, cont);
            let after = wrap_from(next, used_next, rest, max, cont);
            assert forall|i: int| 0 <= i < all.len() implies fits(#[trigger] all[i], max) by {
                if i > 0 {
                    assert(all[i] == after[i - 1]);
                } else {
                    assert(all[0] == current);
                }
            }
        } else if current.len() > 1 {
            let next = current.push(style::unstyled(" "@)).push(word_span(w));
            assert(next.take(next.len() - 2) =~= current);
            assert(taken(next) == used + 1 + n);
            lemma_wrap_fits(next, used + 1 + n as nat, rest, max, cont);
            assert(all == wrap_from(next, used + 1 + n as nat, rest, max, cont));
        } else {
            let next = current.push(word_span(w));
            assert(taken(next) == used + n);
            lemma_wrap_fits(next, used + n as nat, rest, max, cont);
            assert(all == wrap_from(next, used + n as nat, rest, max, cont));
        }
    }
}

/// A wrapped line fits the screen, unless it holds a single word.
pub proof fn wrapped_lines_fit(
    words: Seq<markdown::WordView>,
    max: usize,
    prefix: Seq<char>,
    cont: Seq<char>,
)
    ensures
        forall|i: int|
            0 <= i < wrapped(words, max, prefix, cont).len() ==> fits(
                #[trigger] wrapped(words, max, prefix, cont)[i],
                max,
            ),
{
    if words.len() > 0 {
        let first = seq![style::unstyled(prefix)];
        lemma_wrap_fits(first, width::text_width(prefix) as nat, words, max, cont);
    } else {
        assert(wrapped(words, max, prefix, cont)[0].len() == 1);
    }
}

// ── Blocks ──

/// A rule across the screen.
pub open spec fn rule_line(max: usize) -> LineView {
    style::one_span(
        INDENT@ + text::repeated(
            '─',
            if max < 60 {
                max as nat
            } else {
                60
            },
        ),
        style::colored(Color::DarkGray),
    )
}

pub fn render_hr(out: &mut Vec<Line>, width: usize)
    ensures
        final(out).deep_view() == old(out).deep_view().push(rule_line(width)),
{
    let n: usize = if width < 60 {
        width
    } else {
        60
    };
    let rule = text::cat2(INDENT, text::repeat_char('─', n).as_str());
    style::push_line(out, Line::of(rule, Style::default().fg(Color::DarkGray)));
}

/// The style of a heading.
pub open spec fn heading_style(level: nat) -> Style {
    style::with_modifier(
        style::colored(
            if level == 1 || level == 2 {
                Color::Cyan
            } else {
                Color::White
            },
        ),
        Modifier::Bold,
    )
}

/// A heading: its title, underlined at the upper levels, and an empty line.
pub open spec fn heading_lines(level: nat, title: Seq<char>, max: usize) -> Seq<LineView> {
    let titled = wrapped_line(title, max, heading_style(level), INDENT@, INDENT@);
    let len = width::text_width(title);
    let underlined = if level <= 2 {
        titled.push(
            style::one_span(
                INDENT@ + text::repeated(
                    '─',
                    if len < max {
                        len as nat
                    } else {
                        max as nat
                    },
                ),
                style::colored(Color::DarkGray),
            ),
        )
    } else {
        titled
    };
    underlined.push(style::blank())
}

pub fn render_heading(out: &mut Vec<Line>, level: usize, title: &str, width: usize)
    ensures
        final(out).deep_view() == old(out).deep_view() + heading_lines(level as nat, title@, width),
{
    let ghost before = out.deep_view();
    let color = if level == 1 || level == 2 {
        Color::Cyan
    } else {
        Color::White
    };
    let style = Style::default().fg(color).add_modifier(Modifier::Bold);
    style::push_lines(out, wrap_inline_line(title, width, style));
    if level <= 2 {
        let len: usize = width::display_width(title);
        let n: usize = if len < width {
            len
        } else {
            width
        };
        let rule = text::cat2(INDENT, text::repeat_char('─', n).as_str());
        style::push_line(out, Line::of(rule, Style::default().fg(Color::DarkGray)));
    }
    style::push_line(out, Line::blank());
    assert(out.deep_view() =~= before + heading_lines(level as nat, title@, width));
}

/// `a - b`, or zero where that is negative.
pub open spec fn minus(a: usize, b: usize) -> usize {
    if a < b {
        0
    } else {
        (a - b) as usize
    }
}

/// A quotation.
pub open spec fn quote_lines(s: Seq<char>, max: usize) -> Seq<LineView> {
    wrapped_line(
        s,
        minus(max, width::text_width(QUOTE@)),
        style::with_modifier(style::colored(Color::DarkGray), Modifier::Italic),
        QUOTE@,
        QUOTE@,
    )
}

pub fn render_blockquote(out: &mut Vec<Line>, s: &str, width: usize)
    ensures
        final(out).deep_view() == old(out).deep_view() + quote_lines(s@, width),
{
    let style = Style::default().fg(Color::DarkGray).add_modifier(Modifier::Italic);
    let inner: usize = width.saturating_sub(width::display_width(QUOTE));
    style::push_lines(out, wrap_inline_line_prefixed(s, inner, style, QUOTE, QUOTE));
}

/// The mark of a list item, three characters wide where it is shorter.
pub open spec fn bullet(ordered: Option<u32>) -> Seq<char> {
    match ordered {
        None => "•  "@,
        Some(n) => {
            let b = number::decimal(n as nat) + "."@;
            if b.len() < 3 {
                b + text::repeated(' ', (3 - b.len()) as nat)
            } else {
                b
            }
        },
    }
}

fn bullet_text(ordered: Option<u32>) -> (r: String)
    ensures
        r@ == bullet(ordered),
{
    match ordered {
        None => "•  ".to_owned(),
        Some(n) => {
            let b = text::cat2(number::u64_text(n as u64).as_str(), ".");
            let len: usize = text::chars_of(b.as_str()).len();
            if len < 3 {
                text::cat2(b.as_str(), text::repeat_char(' ', 3 - len).as_str())
            } else {
                b
            }
        },
    }
}

/// `lines` with `span` at the start of the first.
pub open spec fn with_first(lines: Seq<LineView>, span: SpanView) -> Seq<LineView> {
    if lines.len() > 0 && lines[0].len() > 0 {
        lines.update(0, lines[0].update(0, span))
    } else {
        lines
    }
}

/// A list item: its mark in color, and its text behind it.
pub open spec fn item_lines(ordered: Option<u32>, s: Seq<char>, max: usize) -> Seq<LineView> {
    let first = INDENT@ + bullet(ordered);
    let cont = INDENT@ + text::repeated(' ', width::text_width(bullet(ordered)) as nat);
    with_first(
        wrapped_line(s, max, style::colored(Color::White), first, cont),
        SpanView { text: first, style: style::colored(Color::Cyan) },
    )
}

pub fn render_list_item(out: &mut Vec<Line>, ordered: Option<u32>, s: &str, width: usize)
    ensures
        final(out).deep_view() == old(out).deep_view() + item_lines(ordered, s@, width),
{
    let mark = bullet_text(ordered);
    let first = text::cat2(INDENT, mark.as_str());
    let cont = text::cat2(
        INDENT,
        text::repeat_char(' ', width::display_width(mark.as_str())).as_str(),
    );
    let style = Style::default().fg(Color::White);
    let mut lines = wrap_inline_words(
        &markdown::inline_words(s, style),
        width,
        first.as_str(),
        cont.as_str(),
    );
    let ghost all = lines.deep_view();
    assert(all.len() == lines@.len());
    if lines.len() > 0 {
        let mut line = lines.remove(0);
        let ghost head = line.spans.deep_view();
        assert(all[0] == head);
        assert(head.len() == line.spans@.len());
        if line.spans.len() > 0 {
            let span = Span::styled(first.clone(), Style::default().fg(Color::Cyan));
            line.spans.set(0, span);
            assert(line.spans.deep_view() =~= head.update(0, span.deep_view()));
        }
        lines.insert(0, line);
        assert(lines.deep_view() =~= with_first(
            all,
            SpanView { text: first@, style: style::colored(Color::Cyan) },
        ));
    }
    style::push_lines(out, lines);
}

/// The lower border of a block of code.
pub const CODE_END: &'static str = "  └────────────────────────────────────";

/// The upper border of a block of code, with its language.
pub open spec fn code_start(lang: Option<Seq<char>>) -> Seq<char> {
    let label = match lang {
        Some(l) => if l.len() == 0 {
            " code "@
        } else {
            " "@ + l + " "@
        },
        None => " code "@,
    };
    "  ┌"@ + label + text::repeated('─', 28)
}

/// A line of code behind its border.
pub open spec fn code_line(chunk: Seq<char>) -> LineView {
    seq![
        SpanView { text: QUOTE@, style: style::colored(Color::Yellow) },
        SpanView { text: chunk, style: style::colored(Color::Gray) },
    ]
}

/// Lines of code behind their border.
pub open spec fn code_lines(lines: Seq<Seq<char>>, max: usize) -> Seq<LineView>
    decreases lines.len(),
{
    if lines.len() == 0 {
        Seq::empty()
    } else {
        code_lines(lines.drop_last(), max) + line_chunks(lines.last(), max).map_values(
            |c: Seq<char>| code_line(c),
        )
    }
}

/// A block of code within its border, and an empty line.
pub open spec fn code_block(lang: Option<Seq<char>>, lines: Seq<Seq<char>>, max_width: u16) -> Seq<
    LineView,
> {
    seq![style::one_span(code_start(lang), style::colored(Color::Yellow))] + code_lines(
        lines,
        minus(max_width as usize, 6),
    ) + seq![style::one_span(CODE_END@, style::colored(Color::Yellow)), style::blank()]
}

fn push_chunks(out: &mut Vec<Line>, parts: &Vec<String>)
    ensures
        final(out).deep_view() == old(out).deep_view() + parts.deep_view().map_values(
            |c: Seq<char>| code_line(c),
        ),
{
    let ghost before = out.deep_view();
    let ghost all = parts.deep_view().map_values(|c: Seq<char>| code_line(c));
    let mut i: usize = 0;
    assert(before + all.take(0) =~= before);
    while i < parts.len()
        invariant
            i <= parts@.len(),
            all == parts.deep_view().map_values(|c: Seq<char>| code_line(c)),
            out.deep_view() == before + all.take(i as int),
        decreases parts@.len() - i,
    {
        let ghost held = out.deep_view();
        let spans = two_spans(
            Span::styled(QUOTE.to_owned(), Style::default().fg(Color::Yellow)),
            Span::styled(parts[i].clone(), Style::default().fg(Color::Gray)),
        );
        assert(parts.deep_view()[i as int] == parts@[i as int]@);
        assert(spans.deep_view() == all[i as int]);
        style::push_line(out, Line::from_spans(spans));
        assert(held.push(all[i as int]) =~= before + all.take(i + 1));
        i = i + 1;
    }
    assert(all.take(i as int) =~= all);
}

pub fn render_code_block(
    lang: &Option<String>,
    lines: &Vec<String>,
    out: &mut Vec<Line>,
    max_width: u16,
)
    ensures
        final(out).deep_view() == old(out).deep_view() + code_block(
            lang.deep_view(),
            lines.deep_view(),
            max_width,
        ),
{
    let ghost before = out.deep_view();
    let label = match lang {
        Some(l) => if l.as_str().is_empty() {
            " code ".to_owned()
        } else {
            text::cat3(" ", l.as_str(), " ")
        },
        None => " code ".to_owned(),
    };
    let start = text::cat3("  ┌", label.as_str(), text::repeat_char('─', 28).as_str());
    assert(start@ == code_start(lang.deep_view()));
    style::push_line(out, Line::of(start, Style::default().fg(Color::Yellow)));
    let ghost head = out.deep_view();
    let w: usize = (max_width as usize).saturating_sub(6);
    let ghost all = lines.deep_view();
    let mut i: usize = 0;
    assert(head + Seq::<LineView>::empty() =~= head);
    while i < lines.len()
        invariant
            i <= lines@.len(),
            all == lines.deep_view(),
            out.deep_view() == head + code_lines(all.take(i as int), w),
        decreases lines@.len() - i,
    {
        assert(all.take(i + 1).drop_last() =~= all.take(i as int));
        let ghost held = out.deep_view();
        let parts = wrap_line_chunks(lines[i].as_str(), w);
        assert(all[i as int] == lines@[i as int]@);
        push_chunks(out, &parts);
        let ghost more = line_chunks(all[i as int], w).map_values(|c: Seq<char>| code_line(c));
        assert(held + more =~= head + (code_lines(all.take(i as int), w) + more));
        i = i + 1;
    }
    assert(all.take(i as int) =~= all);
    style::push_line(out, Line::of(CODE_END.to_owned(), Style::default().fg(Color::Yellow)));
    style::push_line(out, Line::blank());
    assert(out.deep_view() =~= before + code_block(lang.deep_view(), all, max_width));
}

// ── Documents ──

/// The blocks that are open while a document is read: code, and a table.
pub struct Reader {
    pub in_code: bool,
    pub lang: Option<String>,
    pub code: Vec<String>,
    pub rows: Vec<Vec<String>>,
}

/// The contents of a `Reader`.
pub struct ReaderView {
    pub in_code: bool,
    pub lang: Option<Seq<char>>,
    pub code: Seq<Seq<char>>,
    pub rows: Seq<Seq<Seq<char>>>,
}

impl DeepView for Reader {
    type V = ReaderView;

    open spec fn deep_view(&self) -> ReaderView {
        ReaderView {
            in_code: self.in_code,
            lang: self.lang.deep_view(),
            code: self.code.deep_view(),
            rows: self.rows.deep_view(),
        }
    }
}

/// No block is open.
pub open spec fn idle() -> ReaderView {
    ReaderView { in_code: false, lang: None, code: Seq::empty(), rows: Seq::empty() }
}

/// A line outside of code and tables: empty, a rule, a heading, a quotation, a
/// list item, or text.
pub open spec fn text_block(line: Seq<char>, max: usize) -> Seq<LineView> {
    if text::trim(line).len() == 0 {
        seq![style::blank()]
    } else if markdown::horizontal_rule(line) {
        seq![rule_line(max)]
    } else if markdown::heading(line) is Some {
        let (level, title) = markdown::heading(line).unwrap();
        heading_lines(level, title, max)
    } else if markdown::quotation(line) is Some {
        quote_lines(markdown::quotation(line).unwrap(), max)
    } else if markdown::list_item(line) is Some {
        let (ordered, item) = markdown::list_item(line).unwrap();
        item_lines(ordered, item, max)
    } else {
        wrapped_line(line, max, style::colored(Color::White), INDENT@, INDENT@)
    }
}

/// What a line does: the blocks that are open after it, and the lines that it
/// draws.
pub open spec fn read_line(r: ReaderView, line: Seq<char>, max_width: u16) -> (
    ReaderView,
    Seq<LineView>,
) {
    let max = minus(max_width as usize, 4);
    let table = table::table_lines(r.rows, max);
    if markdown::is_fence(line) {
        if r.in_code {
            (idle(), table + code_block(r.lang, r.code, max_width))
        } else {
            (
                ReaderView {
                    in_code: true,
                    lang: markdown::fence_lang(line),
                    code: r.code,
                    rows: Seq::empty(),
                },
                table,
            )
        }
    } else if r.in_code {
        (ReaderView { code: r.code.push(line), ..r }, Seq::empty())
    } else if markdown::table_row(line) {
        if markdown::table_separator(line) {
            (r, Seq::empty())
        } else {
            (ReaderView { rows: r.rows.push(markdown::table_cells(line)), ..r }, Seq::empty())
        }
    } else {
        (ReaderView { rows: Seq::empty(), ..r }, table + text_block(line, max))
    }
}

/// What lines do, one after the other.
pub open spec fn read_lines(lines: Seq<Seq<char>>, max_width: u16) -> (ReaderView, Seq<LineView>)
    decreases lines.len(),
{
    if lines.len() == 0 {
        (idle(), Seq::empty())
    } else {
        let (r, drawn) = read_lines(lines.drop_last(), max_width);
        let (next, more) = read_line(r, lines.last(), max_width);
        (next, drawn + more)
    }
}

/// What is drawn at the end: the blocks that are still open.
pub open spec fn close(r: ReaderView, max_width: u16) -> Seq<LineView> {
    (if r.in_code {
        code_block(r.lang, r.code, max_width)
    } else {
        Seq::empty()
    }) + table::table_lines(r.rows, minus(max_width as usize, 4))
}

/// A document in lines that fit.
pub open spec fn document(s: Seq<char>, max_width: u16) -> Seq<LineView> {
    let (r, drawn) = read_lines(text::lines(s), max_width);
    drawn + close(r, max_width)
}

fn draw_text_block(line: &str, out: &mut Vec<Line>, width: usize)
    ensures
        final(out).deep_view() == old(out).deep_view() + text_block(line@, width),
{
    let ghost before = out.deep_view();
    if text::trimmed(line).as_str().is_empty() {
        style::push_line(out, Line::blank());
        assert(out.deep_view() =~= before + seq![style::blank()]);
        return ;
    }
    if markdown::is_hr(line) {
        render_hr(out, width);
        assert(out.deep_view() =~= before + seq![rule_line(width)]);
        return ;
    }
    if let Some((level, title)) = markdown::parse_heading(line) {
        render_heading(out, level, title.as_str(), width);
        return ;
    }
    if let Some(quote) = markdown::parse_blockquote(line) {
        render_blockquote(out, quote.as_str(), width);
        return ;
    }
    if let Some((ordered, item)) = markdown::parse_list_item(line) {
        render_list_item(out, ordered, item.as_str(), width);
        return ;
    }
    style::push_lines(out, wrap_inline_line(line, width, Style::default().fg(Color::White)));
}

impl Reader {
    fn new() -> (r: Self)
        ensures
            r.deep_view() == idle(),
    {
        let r = Reader { in_code: false, lang: None, code: Vec::new(), rows: Vec::new() };
        assert(r.code.deep_view() =~= Seq::<Seq<char>>::empty());
        assert(r.rows.deep_view() =~= Seq::<Seq<Seq<char>>>::empty());
        r
    }

    fn flush_table(&mut self, out: &mut Vec<Line>, width: usize)
        ensures
            final(self).deep_view() == (ReaderView {
                rows: Seq::empty(),
                ..old(self).deep_view()
            }),
            final(out).deep_view() == old(out).deep_view() + table::table_lines(
                old(self).deep_view().rows,
                width,
            ),
    {
        table::render_table(&self.rows, out, width);
        self.rows = Vec::new();
        assert(self.rows.deep_view() =~= Seq::<Seq<Seq<char>>>::empty());
    }

    fn read(&mut self, line: &str, out: &mut Vec<Line>, max_width: u16)
        ensures
            ({
                let (next, drawn) = read_line(old(self).deep_view(), line@, max_width);
                &&& final(self).deep_view() == next
                &&& final(out).deep_view() == old(out).deep_view() + drawn
            }),
    {
        let ghost before = out.deep_view();
        let ghost first = self.deep_view();
        let ghost drawn = read_line(first, line@, max_width).1;
        let width: usize = (max_width as usize).saturating_sub(4);
        if text::has_prefix(text::trimmed_start(line).as_str(), "```") {
            self.flush_table(out, width);
            if self.in_code {
                render_code_block(&self.lang, &self.code, out, max_width);
                self.code = Vec::new();
                self.lang = None;
                self.in_code = false;
                assert(self.code.deep_view() =~= Seq::<Seq<char>>::empty());
                assert(self.rows.deep_view() =~= Seq::<Seq<Seq<char>>>::empty());
            } else {
                self.in_code = true;
                self.lang = markdown::parse_fence_lang(line);
            }
            assert(out.deep_view() =~= before + drawn);
            return ;
        }
        if self.in_code {
            self.code.push(line.to_owned());
            assert(self.code.deep_view() =~= first.code.push(line@));
            assert(before + Seq::<LineView>::empty() =~= before);
            return ;
        }
        if markdown::is_table_row(line) {
            if !markdown::is_table_separator(line) {
                let cells = markdown::parse_table_row(line);
                self.rows.push(cells);
                assert(self.rows.deep_view() =~= first.rows.push(markdown::table_cells(line@)));
            }
            assert(before + Seq::<LineView>::empty() =~= before);
            return ;
        }
        self.flush_table(out, width);
        draw_text_block(line, out, width);
        assert(out.deep_view() =~= before + drawn);
    }
}

/// Draws a document in lines that fit.
pub fn render_markdown(s: &str, out: &mut Vec<Line>, max_width: u16)
    ensures
        final(out).deep_view() == old(out).deep_view() + document(s@, max_width),
{
    let ghost before = out.deep_view();
    let lines = text::lines_of(s);
    let ghost all = lines.deep_view();
    let mut reader = Reader::new();
    let mut i: usize = 0;
    assert(before + Seq::<LineView>::empty() =~= before);
    while i < lines.len()
        invariant
            i <= lines@.len(),
            all == lines.deep_view(),
            reader.deep_view() == read_lines(all.take(i as int), max_width).0,
            out.deep_view() == before + read_lines(all.take(i as int), max_width).1,
        decreases lines@.len() - i,
    {
        assert(all.take(i + 1).drop_last() =~= all.take(i as int));
        assert(all[i as int] == lines@[i as int]@);
        let ghost held = out.deep_view();
        let ghost so_far = read_lines(all.take(i as int), max_width);
        reader.read(lines[i].as_str(), out, max_width);
        let ghost more = read_line(so_far.0, all[i as int], max_width).1;
        assert(held + more =~= before + (so_far.1 + more));
        i = i + 1;
    }
    assert(all.take(i as int) =~= all);
    let ghost held = out.deep_view();
    let ghost end = reader.deep_view();
    if reader.in_code {
        render_code_block(&reader.lang, &reader.code, out, max_width);
    }
    let width: usize = (max_width as usize).saturating_sub(4);
    reader.flush_table(out, width);
    assert(out.deep_view() =~= before + document(s@, max_width));
}

// ── Laws ──

proof fn lemma_cut_columns(s: Seq<char>, left: nat)
    ensures
        exists|n: int|
            #![trigger s.take(n)]
            0 <= n <= s.len() && total_columns(s.take(n)) <= left && cut_columns(s, left) == (if n
                < s.len() {
                s.take(n).push('…')
            } else {
                s
            }) && (n < s.len() ==> total_columns(s.take(n)) + width::columns(s[n]) > left),
    decreases s.len(),
{
    let none = Seq::<char>::empty();
    if s.len() == 0 {
        assert(s.take(0) =~= none);
        assert(s =~= none);
    } else if width::columns(s[0]) > left {
        assert(s.take(0) =~= none);
        assert(s.take(0).push('…') =~= seq!['…']);
    } else {
        let rest = s.drop_first();
        let less = (left - width::columns(s[0])) as nat;
        lemma_cut_columns(rest, less);
        let n = choose|n: int|
            #![trigger rest.take(n)]
            0 <= n <= rest.len() && total_columns(rest.take(n)) <= less && cut_columns(rest, less)
                == (if n < rest.len() {
                rest.take(n).push('…')
            } else {
                rest
            }) && (n < rest.len() ==> total_columns(rest.take(n)) + width::columns(rest[n]) > less);
        assert(s.take(n + 1).drop_first() =~= rest.take(n));
        assert(s.take(n + 1)[0] == s[0]);
        if n < rest.len() {
            assert(seq![s[0]] + rest.take(n).push('…') =~= s.take(n + 1).push('…'));
            assert(rest[n] == s[n + 1]);
        } else {
            assert(seq![s[0]] + rest =~= s);
        }
    }
}

/// A text that fits is shown whole; of a wider one as much is shown as leaves a
/// column for the ellipsis behind it.
pub proof fn wide_texts_are_cut(s: Seq<char>, max: usize)
    ensures
        width::text_width(s) <= max ==> truncated(s, max) == s,
        width::text_width(s) > max && max > 0 ==> exists|n: int|
            #![trigger s.take(n)]
            0 <= n <= s.len() && total_columns(s.take(n)) <= max - 1 && truncated(s, max) == (if n
                < s.len() {
                s.take(n).push('…')
            } else {
                s
            }) && (n < s.len() ==> total_columns(s.take(n)) + width::columns(s[n]) > max - 1),
{
    if max > 0 {
        lemma_cut_columns(s, (max - 1) as nat);
    }
}

/// The columns of a text add up, character by character.
pub proof fn columns_add_up(a: Seq<char>, b: Seq<char>, c: char)
    ensures
        total_columns(a + b) == total_columns(a) + total_columns(b),
        total_columns(seq![c]) == width::columns(c),
    decreases a.len(),
{
    let none = Seq::<char>::empty();
    assert(seq![c].drop_first() =~= none);
    assert(total_columns(none) == 0);
    if a.len() == 0 {
        assert(a + b =~= b);
    } else {
        assert((a + b).drop_first() =~= a.drop_first() + b);
        columns_add_up(a.drop_first(), b, c);
    }
}

/// A line is shown without its marks by its words, with a space between two.
pub proof fn visible_text_is_words(s: Seq<char>, i: int)
    ensures
        0 <= i < markdown::words_of(s, style::plain()).len() ==> text::holds(
            visible(s),
            markdown::words_of(s, style::plain())[i].text,
        ),
        markdown::words_of(s, style::plain()).len() == 1 ==> visible(s) == markdown::words_of(
            s,
            style::plain(),
        )[0].text,
{
    let texts = markdown::words_of(s, style::plain()).map_values(|w: markdown::WordView| w.text);
    if 0 <= i < texts.len() {
        text::joined_holds_parts(texts, " "@, i);
    }
}

proof fn lemma_words_of_first(line: LineView, span: SpanView)
    requires
        line.len() == 1 || (line.len() > 1 && line.len() % 2 == 0),
    ensures
        words_in(line.update(0, span)) == words_in(line),
    decreases line.len(),
{
    let after = line.update(0, span);
    if line.len() > 2 {
        let rest = line.take(line.len() - 2);
        lemma_words_of_first(rest, span);
        assert(after.take(after.len() - 2) =~= rest.update(0, span));
    } else if line.len() == 2 {
        assert(after.take(0) =~= line.take(0));
    }
}

proof fn lemma_wrap_shapes(
    current: LineView,
    used: nat,
    words: Seq<markdown::WordView>,
    max: usize,
    cont: Seq<char>,
)
    requires
        current.len() == 1 || (current.len() > 1 && current.len() % 2 == 0),
    ensures
        forall|i: int|
            0 <= i < wrap_from(current, used, words, max, cont).len() ==> (#[trigger] wrap_from(
                current,
                used,
                words,
                max,
                cont,
            )[i]).len() > 1 && wrap_from(current, used, words, max, cont)[i].len() % 2 == 0,
        wrap_from(current, used, words, max, cont).len() > 0 ==> wrap_from(
            current,
            used,
            words,
            max,
            cont,
        )[0][0] == current[0],
        forall|i: int|
            0 < i < wrap_from(current, used, words, max, cont).len() ==> (#[trigger] wrap_from(
                current,
                used,
                words,
                max,
                cont,
            )[i])[0] == style::unstyled(cont),
    decreases words.len(),
{
    let all = wrap_from(current, used, words, max, cont);
    if words.len() > 0 {
        let w = words[0];
        let n = width::text_width(w.text);
        let rest = words.drop_first();
        if current.len() > 1 && used + 1 + n > max {
            let next = seq![style::unstyled(cont), word_span(w)];
            let used_next = width::text_width(cont) as nat + n as nat;
            lemma_wrap_shapes(next, used_next, rest, max, cont);
            let after = wrap_from(next, used_next, rest, max, cont);
            assert forall|i: int| 0 <= i < all.len() implies (#[trigger] all[i]).len() > 1
                && all[i].len() % 2 == 0 by {
                if i > 0 {
                    assert(all[i] == after[i - 1]);
                }
            }
            assert forall|i: int| 0 < i < all.len() implies (#[trigger] all[i])[0]
                == style::unstyled(cont) by {
                assert(all[i] == after[i - 1]);
            }
        } else if current.len() > 1 {
            let next = current.push(style::unstyled(" "@)).push(word_span(w));
            lemma_wrap_shapes(next, used + 1 + n as nat, rest, max, cont);
        } else {
            let next = current.push(word_span(w));
            lemma_wrap_shapes(next, used + n as nat, rest, max, cont);
        }
    }
}

/// The first of wrapped lines starts with the prefix, the others with the other
/// prefix.
pub proof fn wrapped_lines_have_prefixes(
    words: Seq<markdown::WordView>,
    max: usize,
    prefix: Seq<char>,
    cont: Seq<char>,
    i: int,
)
    requires
        0 <= i < wrapped(words, max, prefix, cont).len(),
    ensures
        wrapped(words, max, prefix, cont)[i].len() > 0,
        wrapped(words, max, prefix, cont)[i][0] == style::unstyled(
            if i == 0 {
                prefix
            } else {
                cont
            },
        ),
{
    if words.len() > 0 {
        lemma_wrap_shapes(
            seq![style::unstyled(prefix)],
            width::text_width(prefix) as nat,
            words,
            max,
            cont,
        );
    }
}

/// A line of text, a quotation and a list item are drawn with all their words,
/// in order.
pub proof fn blocks_keep_their_words(s: Seq<char>, ordered: Option<u32>, max: usize)
    ensures
        words_in_all(wrapped_line(s, max, style::colored(Color::White), INDENT@, INDENT@))
            == markdown::words_of(s, style::colored(Color::White)).map_values(
            |w: markdown::WordView| word_span(w),
        ),
        words_in_all(quote_lines(s, max)) == markdown::words_of(
            s,
            style::with_modifier(style::colored(Color::DarkGray), Modifier::Italic),
        ).map_values(|w: markdown::WordView| word_span(w)),
        words_in_all(item_lines(ordered, s, max)) == markdown::words_of(
            s,
            style::colored(Color::White),
        ).map_values(|w: markdown::WordView| word_span(w)),
{
    let white = style::colored(Color::White);
    let words = markdown::words_of(s, white);
    let dim = style::with_modifier(style::colored(Color::DarkGray), Modifier::Italic);
    wrapping_keeps_words(words, max, INDENT@, INDENT@);
    wrapping_keeps_words(
        markdown::words_of(s, dim),
        minus(max, width::text_width(QUOTE@)),
        QUOTE@,
        QUOTE@,
    );
    let first = INDENT@ + bullet(ordered);
    let cont = INDENT@ + text::repeated(' ', width::text_width(bullet(ordered)) as nat);
    wrapping_keeps_words(words, max, first, cont);
    let lines = wrapped(words, max, first, cont);
    let span = SpanView { text: first, style: style::colored(Color::Cyan) };
    if lines.len() > 0 && lines[0].len() > 0 {
        lemma_wrap_shapes(
            seq![style::unstyled(first)],
            width::text_width(first) as nat,
            words,
            max,
            cont,
        );
        lemma_words_of_first(lines[0], span);
        let after = with_first(lines, span);
        assert(after.drop_first() =~= lines.drop_first());
        assert(after[0] == lines[0].update(0, span));
    }
}

/// A list item starts with its mark: a bullet, or its number.
pub proof fn items_start_with_their_mark(n: u32, s: Seq<char>, max: usize)
    ensures
        number::decimal(n as nat).is_prefix_of(bullet(Some(n))),
        bullet(Some(n)).len() >= 3,
        bullet(None)[0] == '•',
        item_lines(Some(n), s, max).len() > 0 ==> item_lines(Some(n), s, max)[0][0].text == INDENT@
            + bullet(Some(n)),
        item_lines(None, s, max).len() > 0 ==> item_lines(None, s, max)[0][0].text == INDENT@
            + bullet(None),
{
    reveal_strlit("•  ");
    reveal_strlit(".");
    let d = number::decimal(n as nat);
    number::lemma_decimal_value(n as nat);
    assert(bullet(Some(n)).subrange(0, d.len() as int) =~= d);
    lemma_item_mark(Some(n), s, max);
    lemma_item_mark(None, s, max);
}

proof fn lemma_item_mark(ordered: Option<u32>, s: Seq<char>, max: usize)
    ensures
        item_lines(ordered, s, max).len() > 0 ==> item_lines(ordered, s, max)[0].len() > 0
            && item_lines(ordered, s, max)[0][0].text == INDENT@ + bullet(ordered),
{
    let first = INDENT@ + bullet(ordered);
    let cont = INDENT@ + text::repeated(' ', width::text_width(bullet(ordered)) as nat);
    let words = markdown::words_of(s, style::colored(Color::White));
    if wrapped(words, max, first, cont).len() > 0 {
        wrapped_lines_have_prefixes(words, max, first, cont, 0);
    }
}

/// A heading is drawn with all the words of its title, in bold, and an empty
/// line behind it.
pub proof fn headings_keep_their_words(level: nat, title: Seq<char>, max: usize)
    ensures
        ({
            let titled = wrapped_line(title, max, heading_style(level), INDENT@, INDENT@);
            let all = heading_lines(level, title, max);
            &&& titled.is_prefix_of(all)
            &&& words_in_all(titled) == markdown::words_of(
                title,
                heading_style(level),
            ).map_values(|w: markdown::WordView| word_span(w))
            &&& all.last() == style::blank()
            &&& all.len() == titled.len() + (if level <= 2 {
                2int
            } else {
                1
            })
            &&& heading_style(level).bold
        }),
{
    let titled = wrapped_line(title, max, heading_style(level), INDENT@, INDENT@);
    let all = heading_lines(level, title, max);
    assert(all.subrange(0, titled.len() as int) =~= titled);
    wrapping_keeps_words(
        markdown::words_of(title, heading_style(level)),
        max,
        INDENT@,
        INDENT@,
    );
}

/// Lines of code are drawn in order; each is drawn whole, in as many lines as
/// it takes.
pub proof fn code_is_drawn_whole(a: Seq<Seq<char>>, b: Seq<Seq<char>>, line: Seq<char>, max: usize)
    ensures
        code_lines(a + b, max) == code_lines(a, max) + code_lines(b, max),
        exists|parts: Seq<Seq<char>>|
            #![trigger text::joined(parts, Seq::<char>::empty())]
            text::joined(parts, Seq::<char>::empty()) == line && code_lines(seq![line], max).len()
                == parts.len() && forall|i: int|
                0 <= i < parts.len() ==> (#[trigger] code_lines(seq![line], max)[i]).len() == 2
                    && code_lines(seq![line], max)[i][1].text == parts[i],
    decreases b.len(),
{
    let none = Seq::<Seq<char>>::empty();
    assert(seq![line].drop_last() =~= none);
    assert(code_lines(none, max) =~= Seq::<LineView>::empty());
    let parts = line_chunks(line, max);
    wrapping_drops_nothing(line, max);
    assert(code_lines(seq![line], max) =~= parts.map_values(|c: Seq<char>| code_line(c)));
    assert(text::joined(parts, Seq::<char>::empty()) == line);
    if b.len() == 0 {
        assert(a + b =~= a);
        assert(code_lines(a, max) + code_lines(b, max) =~= code_lines(a, max));
    } else {
        code_is_drawn_whole(a, b.drop_last(), line, max);
        assert((a + b).drop_last() =~= a + b.drop_last());
        assert(code_lines(a + b, max) =~= code_lines(a, max) + code_lines(b, max));
    }
}

/// The upper border of a block of code names its language.
pub proof fn borders_name_the_language(lang: Seq<char>)
    requires
        lang.len() > 0,
    ensures
        text::holds(code_start(Some(lang)), lang),
{
    let head = "  ┌"@;
    let rule = text::repeated('─', 28);
    let space = " "@;
    text::holds_itself(lang);
    text::whole_holds_parts(head + space, lang, space + rule, lang);
    assert(head + (space + lang + space) + rule =~= head + space + lang + (space + rule));
}

/// A block of code is drawn within its border, all its lines in order, and an
/// empty line follows it.
pub proof fn code_stands_in_its_border(
    lang: Option<Seq<char>>,
    lines: Seq<Seq<char>>,
    max_width: u16,
)
    ensures
        ({
            let all = code_block(lang, lines, max_width);
            let inner = code_lines(lines, minus(max_width as usize, 6));
            &&& all.len() == inner.len() + 3
            &&& all[0] == style::one_span(code_start(lang), style::colored(Color::Yellow))
            &&& all.subrange(1, 1 + inner.len() as int) == inner
            &&& all.last() == style::blank()
        }),
{
    let inner = code_lines(lines, minus(max_width as usize, 6));
    let first = seq![style::one_span(code_start(lang), style::colored(Color::Yellow))];
    let end = seq![style::one_span(CODE_END@, style::colored(Color::Yellow)), style::blank()];
    let all = first + inner + end;
    assert(all == code_block(lang, lines, max_width));
    assert(all.subrange(1, 1 + inner.len() as int) =~= inner);
    assert(all[0] == first[0]);
    assert(all.last() == end[1]);
}

/// Whether a line is text: it opens no code and is no row of a table.
pub open spec fn is_text(line: Seq<char>) -> bool {
    !markdown::is_fence(line) && !markdown::table_row(line)
}

/// What lines of text draw, one after the other.
pub open spec fn text_blocks(lines: Seq<Seq<char>>, max: usize) -> Seq<LineView>
    decreases lines.len(),
{
    if lines.len() == 0 {
        Seq::empty()
    } else {
        text_blocks(lines.drop_last(), max) + text_block(lines.last(), max)
    }
}

/// A document of text is drawn line by line, in order, and no line is left out.
pub proof fn text_is_drawn_line_by_line(lines: Seq<Seq<char>>, max_width: u16)
    requires
        forall|i: int| 0 <= i < lines.len() ==> is_text(#[trigger] lines[i]),
    ensures
        read_lines(lines, max_width) == (
            idle(),
            text_blocks(lines, minus(max_width as usize, 4)),
        ),
        close(idle(), max_width).len() == 0,
    decreases lines.len(),
{
    let max = minus(max_width as usize, 4);
    let none = Seq::<LineView>::empty();
    assert(table::table_lines(Seq::empty(), max) =~= none);
    assert(none + none =~= none);
    if lines.len() > 0 {
        let rest = lines.drop_last();
        assert forall|i: int| 0 <= i < rest.len() implies is_text(#[trigger] rest[i]) by {
            assert(rest[i] == lines[i]);
        }
        text_is_drawn_line_by_line(rest, max_width);
        assert(is_text(lines[lines.len() - 1]));
        assert(none + text_block(lines.last(), max) =~= text_block(lines.last(), max));
    }
}

/// A document is all that its lines draw and what is still open at its end.
pub proof fn documents_of_text_are_drawn(s: Seq<char>, max_width: u16)
    requires
        forall|i: int| 0 <= i < text::lines(s).len() ==> is_text(#[trigger] text::lines(s)[i]),
    ensures
        document(s, max_width) == text_blocks(text::lines(s), minus(max_width as usize, 4)),
{
    text_is_drawn_line_by_line(text::lines(s), max_width);
    assert(document(s, max_width) =~= text_blocks(text::lines(s), minus(max_width as usize, 4)));
}

/// What a line of text draws: nothing but space where it is blank, a rule, a
/// heading, a quotation or a list item where it is one, and else its words.
pub proof fn lines_are_drawn_as_what_they_are(line: Seq<char>, max: usize)
    ensures
        text::trim(line).len() == 0 ==> text_block(line, max) == seq![style::blank()],
        text::trim(line).len() > 0 && markdown::horizontal_rule(line) ==> text_block(line, max)
            == seq![rule_line(max)],
        text::trim(line).len() > 0 && !markdown::horizontal_rule(line) ==> {
            &&& markdown::heading(line) matches Some((level, title)) ==> text_block(line, max)
                == heading_lines(level, title, max)
            &&& markdown::heading(line) is None ==> {
                &&& markdown::quotation(line) matches Some(s) ==> text_block(line, max)
                    == quote_lines(s, max)
                &&& markdown::quotation(line) is None ==> {
                    &&& markdown::list_item(line) matches Some((ordered, s)) ==> text_block(
                        line,
                        max,
                    ) == item_lines(ordered, s, max)
                    &&& markdown::list_item(line) is None ==> text_block(line, max)
                        == wrapped_line(line, max, style::colored(Color::White), INDENT@, INDENT@)
                }
            }
        },
{
}

/// Lines within a block of code are kept as they are, whatever they look like,
/// and are drawn when the block is closed, or at the end of the document.
pub proof fn code_is_kept_until_closed(
    r: ReaderView,
    line: Seq<char>,
    fence: Seq<char>,
    max_width: u16,
)
    requires
        r.in_code,
        r.rows.len() == 0,
        markdown::is_fence(fence),
    ensures
        !markdown::is_fence(line) ==> read_line(r, line, max_width) == (
            ReaderView { code: r.code.push(line), ..r },
            Seq::<LineView>::empty(),
        ),
        read_line(r, fence, max_width) == (idle(), code_block(r.lang, r.code, max_width)),
        close(r, max_width) == code_block(r.lang, r.code, max_width),
        ({
            let (opened, drawn) = read_line(idle(), fence, max_width);
            &&& opened.in_code
            &&& opened.code.len() == 0
            &&& opened.lang == markdown::fence_lang(fence)
            &&& drawn.len() == 0
        }),
{
    let block = code_block(r.lang, r.code, max_width);
    assert(Seq::<LineView>::empty() + block =~= block);
    assert(block + Seq::<LineView>::empty() =~= block);
}

/// Rows of a table are collected, separators apart, and drawn before what
/// follows them, or at the end of the document.
pub proof fn rows_are_collected(r: ReaderView, line: Seq<char>, max_width: u16)
    requires
        !r.in_code,
        !markdown::is_fence(line),
    ensures
        ({
            let max = minus(max_width as usize, 4);
            let (after, drawn) = read_line(r, line, max_width);
            &&& markdown::table_row(line) && !markdown::table_separator(line) ==> after.rows
                == r.rows.push(markdown::table_cells(line)) && drawn.len() == 0
            &&& markdown::table_row(line) && markdown::table_separator(line) ==> after == r
                && drawn.len() == 0
            &&& !markdown::table_row(line) ==> after.rows.len() == 0 && drawn == table::table_lines(
                r.rows,
                max,
            ) + text_block(line, max)
            &&& close(r, max_width) == table::table_lines(r.rows, max)
        }),
{
    let max = minus(max_width as usize, 4);
    assert(Seq::<LineView>::empty() + table::table_lines(r.rows, max) =~= table::table_lines(
        r.rows,
        max,
    ));
}

} // verus!
