//! Reading Markdown: what a line is, and the styled words within it.
use vstd::prelude::*;
use crate::number;
use crate::style;
use crate::style::{Color, Modifier, Style};
use crate::text;

verus! {

broadcast use vstd::seq::group_seq_axioms;

// ── Lines ──

/// Whether every character of `s` is `c`.
pub open spec fn all_are(s: Seq<char>, c: char) -> bool {
    forall|i: int| 0 <= i < s.len() ==> #[trigger] s[i] == c
}

fn consists_of(v: &Vec<char>, c: char) -> (r: bool)
    ensures
        r == all_are(v@, c),
{
    let mut i: usize = 0;
    while i < v.len()
        invariant
            i <= v@.len(),
            forall|j: int| 0 <= j < i ==> #[trigger] v@[j] == c,
        decreases v@.len() - i,
    {
        if v[i] != c {
            return false;
        }
        i = i + 1;
    }
    true
}

/// Whether a line opens or closes a block of code.
pub open spec fn is_fence(line: Seq<char>) -> bool {
    "```"@.is_prefix_of(text::trim_start(line))
}

/// The language that the opening of a block names.
pub open spec fn fence_lang(line: Seq<char>) -> Option<Seq<char>> {
    let t = text::trim(line);
    if !"```"@.is_prefix_of(t) || text::trim(t.skip(3)).len() == 0 {
        None
    } else {
        Some(text::trim(t.skip(3)))
    }
}

pub fn parse_fence_lang(line: &str) -> (r: Option<String>)
    ensures
        r.deep_view() == fence_lang(line@),
{
    proof {
        reveal_strlit("```");
    }
    let t = text::trimmed(line);
    if !text::has_prefix(t.as_str(), "```") {
        return None;
    }
    let v = text::chars_of(t.as_str());
    let rest = text::string_of(&v, 3, v.len());
    assert(rest@ =~= t@.skip(3));
    let lang = text::trimmed(rest.as_str());
    if lang.as_str().is_empty() {
        None
    } else {
        Some(lang)
    }
}

/// Whether a line is a row of a table: bars at both ends.
pub open spec fn table_row(line: Seq<char>) -> bool {
    let t = text::trim(line);
    t.len() > 0 && t[0] == '|' && t.last() == '|'
}

pub fn is_table_row(line: &str) -> (r: bool)
    ensures
        r == table_row(line@),
{
    let t = text::chars_of(text::trimmed(line).as_str());
    t.len() > 0 && t[0] == '|' && t[t.len() - 1] == '|'
}

pub open spec fn is_rule_char(c: char) -> bool {
    c == '-' || c == ':' || c == ' ' || c == '|'
}

/// Whether a row of a table only divides the table.
pub open spec fn table_separator(line: Seq<char>) -> bool {
    let t = text::strip(text::trim(line), '|');
    (forall|i: int| 0 <= i < t.len() ==> is_rule_char(#[trigger] t[i])) && t.contains('-')
}

pub fn is_table_separator(line: &str) -> (r: bool)
    ensures
        r == table_separator(line@),
{
    let t = text::stripped(text::trimmed(line).as_str(), '|');
    let v = text::chars_of(t.as_str());
    let mut i: usize = 0;
    while i < v.len()
        invariant
            i <= v@.len(),
            v@ == t@,
            t@ == text::strip(text::trim(line@), '|'),
            forall|j: int| 0 <= j < i ==> is_rule_char(#[trigger] v@[j]),
        decreases v@.len() - i,
    {
        let c = v[i];
        if !(c == '-' || c == ':' || c == ' ' || c == '|') {
            assert(!is_rule_char(t@[i as int]));
            return false;
        }
        i = i + 1;
    }
    text::has_char(t.as_str(), '-')
}

/// The cells of a row.
pub open spec fn table_cells(line: Seq<char>) -> Seq<Seq<char>> {
    text::pieces(text::strip(text::trim(line), '|'), '|').map_values(|c: Seq<char>| text::trim(c))
}

pub fn parse_table_row(line: &str) -> (r: Vec<String>)
    ensures
        r.deep_view() == table_cells(line@),
{
    let t = text::stripped(text::trimmed(line).as_str(), '|');
    let cells = text::split_at_char(t.as_str(), '|');
    let mut r: Vec<String> = Vec::new();
    let mut i: usize = 0;
    while i < cells.len()
        invariant
            i <= cells@.len(),
            r@.len() == i,
            forall|j: int| 0 <= j < i ==> (#[trigger] r@[j])@ == text::trim(cells@[j]@),
        decreases cells@.len() - i,
    {
        r.push(text::trimmed(cells[i].as_str()));
        i = i + 1;
    }
    assert(r.deep_view() =~= cells.deep_view().map_values(|c: Seq<char>| text::trim(c)));
    r
}

/// Whether a line is a rule: three or more of one of three characters.
pub open spec fn horizontal_rule(line: Seq<char>) -> bool {
    let t = text::trim(line);
    t.len() >= 3 && (all_are(t, '-') || all_are(t, '*') || all_are(t, '_'))
}

pub fn is_hr(line: &str) -> (r: bool)
    ensures
        r == horizontal_rule(line@),
{
    let t = text::chars_of(text::trimmed(line).as_str());
    t.len() >= 3 && (consists_of(&t, '-') || consists_of(&t, '*') || consists_of(&t, '_'))
}

/// The hashes at the start of `s`.
pub open spec fn hashes(s: Seq<char>) -> nat
    decreases s.len(),
{
    if s.len() > 0 && s[0] == '#' {
        1 + hashes(s.drop_first())
    } else {
        0
    }
}

/// The level and the title of a heading: one to six hashes with a title behind
/// them.
pub open spec fn heading(line: Seq<char>) -> Option<(nat, Seq<char>)> {
    let t = text::trim_start(line);
    let level = hashes(t);
    let title = text::trim_start(t.skip(level as int));
    if level == 0 || level > 6 || title.len() == 0 {
        None
    } else {
        Some((level, title))
    }
}

pub fn parse_heading(line: &str) -> (r: Option<(usize, String)>)
    ensures
        match r {
            Some((level, title)) => heading(line@) == Some((level as nat, title@)),
            None => heading(line@) is None,
        },
{
    let t = text::trimmed_start(line);
    let v = text::chars_of(t.as_str());
    let mut level: usize = 0;
    assert(v@.skip(0) =~= v@);
    while level < v.len() && v[level] == '#'
        invariant
            level <= v@.len(),
            hashes(v@) == level + hashes(v@.skip(level as int)),
        decreases v@.len() - level,
    {
        assert(v@.skip(level as int).drop_first() =~= v@.skip(level + 1));
        level = level + 1;
    }
    if level == 0 || level > 6 {
        return None;
    }
    let rest = text::string_of(&v, level, v.len());
    assert(rest@ =~= t@.skip(level as int));
    let title = text::trimmed_start(rest.as_str());
    if title.as_str().is_empty() {
        None
    } else {
        Some((level, title))
    }
}

/// What a quotation says.
pub open spec fn quotation(line: Seq<char>) -> Option<Seq<char>> {
    let t = text::trim_start(line);
    if t.len() > 0 && t[0] == '>' {
        Some(text::trim_start(t.skip(1)))
    } else {
        None
    }
}

pub fn parse_blockquote(line: &str) -> (r: Option<String>)
    ensures
        r.deep_view() == quotation(line@),
{
    let t = text::trimmed_start(line);
    let v = text::chars_of(t.as_str());
    if v.len() > 0 && v[0] == '>' {
        let rest = text::string_of(&v, 1, v.len());
        assert(rest@ =~= t@.skip(1));
        Some(text::trimmed_start(rest.as_str()))
    } else {
        None
    }
}

/// The number and the text of a list item. An item starts with a dash, a star
/// or a plus, or with a number and a dot, and a space behind it.
pub open spec fn list_item(line: Seq<char>) -> Option<(Option<u32>, Seq<char>)> {
    let t = text::trim_start(line);
    if "- "@.is_prefix_of(t) || "* "@.is_prefix_of(t) || "+ "@.is_prefix_of(t) {
        Some((None, t.skip(2)))
    } else {
        match text::find(t, ". "@) {
            None => None,
            Some(k) => {
                let num = t.take(k);
                if number::all_digits(num) && num.len() > 0 && number::numeral_value(num)
                    <= u32::MAX {
                    Some((Some(number::numeral_value(num) as u32), t.skip(k + 2)))
                } else {
                    None
                }
            },
        }
    }
}

fn only_digits(s: &str) -> (r: bool)
    ensures
        r == number::all_digits(s@),
{
    let v = text::chars_of(s);
    let mut i: usize = 0;
    while i < v.len()
        invariant
            i <= v@.len(),
            v@ == s@,
            forall|j: int| 0 <= j < i ==> text::is_digit(#[trigger] v@[j]),
        decreases v@.len() - i,
    {
        if !('0' <= v[i] && v[i] <= '9') {
            assert(!text::is_digit(s@[i as int]));
            return false;
        }
        i = i + 1;
    }
    true
}

pub fn parse_list_item(line: &str) -> (r: Option<(Option<u32>, String)>)
    ensures
        match r {
            Some((n, item)) => list_item(line@) == Some((n, item@)),
            None => list_item(line@) is None,
        },
{
    proof {
        reveal_strlit("- ");
        reveal_strlit("* ");
        reveal_strlit("+ ");
        reveal_strlit(". ");
    }
    let t = text::trimmed_start(line);
    let v = text::chars_of(t.as_str());
    if text::has_prefix(t.as_str(), "- ") || text::has_prefix(t.as_str(), "* ") || text::has_prefix(
        t.as_str(),
        "+ ",
    ) {
        let rest = text::string_of(&v, 2, v.len());
        assert(rest@ =~= t@.skip(2));
        return Some((None, rest));
    }
    match text::find_text(t.as_str(), ". ") {
        None => None,
        Some(k) => {
            let num = text::string_of(&v, 0, k);
            assert(num@ =~= t@.take(k as int));
            if !only_digits(num.as_str()) {
                return None;
            }
            match number::parse_u32(num.as_str()) {
                None => None,
                Some(n) => {
                    let rest = text::string_of(&v, k + 2, v.len());
                    assert(rest@ =~= t@.skip(k + 2));
                    Some((Some(n), rest))
                },
            }
        },
    }
}

// ── Words ──

/// A word with its style.
pub struct StyledWord {
    pub text: String,
    pub style: Style,
}

/// The contents of a `StyledWord`.
pub struct WordView {
    pub text: Seq<char>,
    pub style: Style,
}

impl DeepView for StyledWord {
    type V = WordView;

    open spec fn deep_view(&self) -> WordView {
        WordView { text: self.text@, style: self.style }
    }
}

/// Whether code names a Rust source file.
pub open spec fn rs_source_ref(s: Seq<char>) -> bool {
    ".rs"@.is_suffix_of(text::trim(s))
}

/// Paths of Rust source files are shown as normal text, not as code.
pub fn is_rs_source_ref(s: &str) -> (r: bool)
    ensures
        r == rs_source_ref(s@),
{
    text::has_suffix(text::trimmed(s).as_str(), ".rs")
}

/// The words of a text, all in one style.
pub open spec fn plain_words(s: Seq<char>, style: Style) -> Seq<WordView> {
    text::words(s).map_values(|w: Seq<char>| WordView { text: w, style })
}

/// The words of code.
pub open spec fn code_words(s: Seq<char>, style: Style) -> Seq<WordView> {
    if rs_source_ref(s) {
        plain_words(s, style)
    } else {
        plain_words(s, style::colored(Color::Yellow))
    }
}

/// The label, the address and the length of the link at the start of `s`,
/// which starts with a bracket.
pub open spec fn link_at(s: Seq<char>) -> Option<(Seq<char>, Seq<char>, int)> {
    match text::find(s, "]"@) {
        None => None,
        Some(close) => {
            let after = s.skip(close + 1);
            if after.len() == 0 || after[0] != '(' {
                None
            } else {
                match text::find(after, ")"@) {
                    None => None,
                    Some(end) => Some(
                        (s.subrange(1, close), after.subrange(1, end), close + 1 + end + 1),
                    ),
                }
            }
        },
    }
}

/// A link: its label, and its address in brackets.
pub open spec fn link_words(label: Seq<char>, url: Seq<char>, style: Style) -> Seq<WordView> {
    seq![
        WordView {
            text: label,
            style: style::with_modifier(
                style::with_color(style, Color::Blue),
                Modifier::Underlined,
            ),
        },
        WordView { text: "("@ + url + ")"@, style: style::colored(Color::DarkGray) },
    ]
}

/// The styled words of `rest`, where `plain` is text that stands before it:
/// code between backquotes, bold between double stars, italics between stars,
/// and links. A mark without its counterpart is text, and a backquote without
/// one ends the line.
pub open spec fn inline(plain: Seq<char>, rest: Seq<char>, style: Style) -> Seq<WordView>
    decreases rest.len(),
    when true
    via inline_decreases
{
    let done = plain_words(plain, style);
    if rest.len() == 0 {
        done
    } else if rest[0] == '`' {
        let tail = rest.skip(1);
        match text::find(tail, "`"@) {
            Some(end) => done + code_words(tail.take(end), style) + inline(
                Seq::empty(),
                tail.skip(end + 1),
                style,
            ),
            None => done + plain_words(seq!['`'], style),
        }
    } else if "**"@.is_prefix_of(rest) {
        let tail = rest.skip(2);
        match text::find(tail, "**"@) {
            Some(end) => done + inline(
                Seq::empty(),
                tail.take(end),
                style::with_modifier(style, Modifier::Bold),
            ) + inline(Seq::empty(), tail.skip(end + 2), style),
            None => done + inline("**"@, tail, style),
        }
    } else if rest[0] == '*' {
        let tail = rest.skip(1);
        match text::find(tail, "*"@) {
            Some(end) => done + inline(
                Seq::empty(),
                tail.take(end),
                style::with_modifier(style, Modifier::Italic),
            ) + inline(Seq::empty(), tail.skip(end + 1), style),
            None => done + inline("*"@, tail, style),
        }
    } else if rest[0] == '[' {
        match link_at(rest) {
            Some((label, url, n)) => done + link_words(label, url, style) + inline(
                Seq::empty(),
                rest.skip(n),
                style,
            ),
            None => done + inline(seq!['['], rest.skip(1), style),
        }
    } else {
        inline(plain.push(rest[0]), rest.skip(1), style)
    }
}

#[via_fn]
proof fn inline_decreases(plain: Seq<char>, rest: Seq<char>, style: Style) {
    if rest.len() > 0 {
        lemma_marks();
        text::lemma_find(rest.skip(1), "`"@);
        text::lemma_find(rest.skip(1), "*"@);
        if "**"@.is_prefix_of(rest) {
            text::lemma_find(rest.skip(2), "**"@);
        }
        lemma_link(rest);
    }
}

proof fn lemma_marks()
    ensures
        "`"@ == seq!['`'],
        "*"@ == seq!['*'],
        "**"@ == seq!['*', '*'],
        "["@ == seq!['['],
        "]"@ == seq![']'],
        "("@ == seq!['('],
        ")"@ == seq![')'],
{
    reveal_strlit("`");
    reveal_strlit("*");
    reveal_strlit("**");
    reveal_strlit("[");
    reveal_strlit("]");
    reveal_strlit("(");
    reveal_strlit(")");
    assert("`"@ =~= seq!['`']);
    assert("*"@ =~= seq!['*']);
    assert("**"@ =~= seq!['*', '*']);
    assert("["@ =~= seq!['[']);
    assert("]"@ =~= seq![']']);
    assert("("@ =~= seq!['(']);
    assert(")"@ =~= seq![')']);
}

proof fn lemma_link(s: Seq<char>)
    ensures
        link_at(s) matches Some((_, _, n)) ==> 2 <= n <= s.len(),
        link_at(s) matches Some((label, url, n)) ==> s[0] != ']' ==> n == label.len() + url.len()
            + 4,
{
    lemma_marks();
    text::lemma_find(s, "]"@);
    match text::find(s, "]"@) {
        None => {},
        Some(close) => {
            let after = s.skip(close + 1);
            text::lemma_find(after, ")"@);
            assert(s.subrange(close, close + 1)[0] == s[close]);
            if let Some(end) = text::find(after, ")"@) {
                assert(after.subrange(end, end + 1)[0] == after[end]);
            }
        },
    }
}

/// The styled words of a line.
pub open spec fn words_of(s: Seq<char>, style: Style) -> Seq<WordView> {
    inline(Seq::empty(), s, style)
}

fn push_words(s: &str, style: Style, out: &mut Vec<StyledWord>)
    ensures
        final(out).deep_view() == old(out).deep_view() + plain_words(s@, style),
{
    let words = text::words_of(s);
    let ghost before = out.deep_view();
    let ghost all = plain_words(s@, style);
    assert(all.len() == words@.len());
    let mut i: usize = 0;
    assert(before + all.take(0) =~= before);
    while i < words.len()
        invariant
            i <= words@.len(),
            words.deep_view() == text::words(s@),
            all == plain_words(s@, style),
            all.len() == words@.len(),
            out.deep_view() == before + all.take(i as int),
        decreases words@.len() - i,
    {
        let ghost held = out.deep_view();
        let word = StyledWord { text: words[i].clone(), style };
        assert(words.deep_view()[i as int] == words@[i as int]@);
        assert(word.deep_view() == all[i as int]);
        out.push(word);
        assert(out.deep_view() =~= held.push(all[i as int]));
        assert(held.push(all[i as int]) =~= before + all.take(i + 1));
        i = i + 1;
    }
    assert(all.take(i as int) =~= all);
}

fn push_code_words(code: &str, style: Style, out: &mut Vec<StyledWord>)
    ensures
        final(out).deep_view() == old(out).deep_view() + code_words(code@, style),
{
    if is_rs_source_ref(code) {
        push_words(code, style, out);
    } else {
        push_words(code, Style::default().fg(Color::Yellow), out);
    }
}

/// A link at the start of a text.
pub struct ParsedLink {
    pub label: String,
    pub url: String,
}

/// The link at the start of a text, and its length in bytes. In front of its
/// label stands one character, of one byte.
pub fn parse_link_prefix(s: &str) -> (r: Option<(ParsedLink, usize)>)
    requires
        text::find(s@, "]"@) matches Some(close) ==> close > 0 && s@[0] as u32 <= 0x7f,
    ensures
        match r {
            Some((link, n)) => link_at(s@) matches Some((label, url, len)) && label == link.label@
                && url == link.url@ && n == text::byte_len(s@.take(len)),
            None => link_at(s@) is None,
        },
{
    proof {
        lemma_marks();
        text::lemma_find(s@, "]"@);
    }
    let v = text::chars_of(s);
    let close: usize = match text::find_text(s, "]") {
        Some(k) => k,
        None => return None,
    };
    let label = text::string_of(&v, 1, close);
    let after = text::string_of(&v, close + 1, v.len());
    assert(after@ =~= s@.skip(close + 1));
    let w = text::chars_of(after.as_str());
    if w.len() == 0 || w[0] != '(' {
        return None;
    }
    proof {
        text::lemma_find(after@, ")"@);
    }
    match text::find_text(after.as_str(), ")") {
        None => None,
        Some(end) => {
            assert(end > 0) by {
                if end == 0 {
                    assert(after@.subrange(0, 1)[0] == after@[0]);
                }
            }
            let url = text::string_of(&w, 1, end);
            let whole = text::string_of(&v, 0, close + 1 + end + 1);
            assert(whole@ =~= s@.take(close + 1 + end + 1));
            Some((ParsedLink { label, url }, text::len_bytes(whole.as_str())))
        },
    }
}

fn part_of(v: &Vec<char>, from: usize, to: usize) -> (r: Vec<char>)
    requires
        from <= to <= v@.len(),
    ensures
        r@ == v@.subrange(from as int, to as int),
{
    text::chars_of(text::string_of(v, from, to).as_str())
}

/// What is left to read of `v` at `i`, behind `plain`.
pub open spec fn left_at(v: Seq<char>, i: int, plain: Seq<char>, style: Style) -> Seq<WordView> {
    inline(plain, v.skip(i), style)
}

fn take_code(v: &Vec<char>, i: usize, plain: &str, style: Style, out: &mut Vec<StyledWord>) -> (r:
    Option<usize>)
    requires
        i < v@.len(),
        v@[i as int] == '`',
    ensures
        match r {
            Some(n) => i < n <= v@.len() && old(out).deep_view() + left_at(
                v@,
                i as int,
                plain@,
                style,
            ) == final(out).deep_view() + left_at(v@, n as int, Seq::empty(), style),
            None => old(out).deep_view() + left_at(v@, i as int, plain@, style)
                == final(out).deep_view(),
        },
{
    let ghost rest = v@.skip(i as int);
    let ghost tail = rest.skip(1);
    let ghost before = out.deep_view();
    proof {
        lemma_marks();
        assert(tail =~= v@.skip(i + 1));
    }
    let tick = text::chars_of("`");
    push_words(plain, style, out);
    assert(i < v.len());
    match text::find_from(v, i + 1, &tick) {
        Some(k) => {
            let code = text::string_of(v, i + 1, k);
            assert(code@ =~= tail.take(k - i - 1));
            push_code_words(code.as_str(), style, out);
            assert(tail.skip(k - i) =~= v@.skip(k + 1));
            assert(k < v.len());
            assert(before + left_at(v@, i as int, plain@, style) =~= out.deep_view() + left_at(
                v@,
                k + 1,
                Seq::empty(),
                style,
            ));
            Some(k + 1)
        },
        None => {
            push_words("`", style, out);
            assert(before + left_at(v@, i as int, plain@, style) =~= out.deep_view());
            None
        },
    }
}

fn take_bold(v: &Vec<char>, i: usize, plain: &str, style: Style, out: &mut Vec<StyledWord>) -> (r:
    (usize, String))
    requires
        i < v@.len(),
        v@[i as int] != '`',
        "**"@.is_prefix_of(v@.skip(i as int)),
    ensures
        i < r.0 <= v@.len(),
        old(out).deep_view() + left_at(v@, i as int, plain@, style) == final(out).deep_view()
            + left_at(v@, r.0 as int, r.1@, style),
    decreases v@.len(), 0int,
{
    let ghost rest = v@.skip(i as int);
    let ghost tail = rest.skip(2);
    let ghost before = out.deep_view();
    proof {
        lemma_marks();
        assert(tail =~= v@.skip(i + 2));
    }
    let stars = text::chars_of("**");
    push_words(plain, style, out);
    assert(i + 2 <= v.len());
    match text::find_from(v, i + 2, &stars) {
        Some(k) => {
            let inner = part_of(v, i + 2, k);
            assert(inner@ =~= tail.take(k - i - 2));
            parse_inline_rest(&inner, style.add_modifier(Modifier::Bold), out);
            assert(tail.skip(k - i) =~= v@.skip(k + 2));
            assert(k + 2 <= v.len());
            assert(before + left_at(v@, i as int, plain@, style) =~= out.deep_view() + left_at(
                v@,
                k + 2,
                Seq::empty(),
                style,
            ));
            (k + 2, String::new())
        },
        None => {
            assert(before + left_at(v@, i as int, plain@, style) =~= out.deep_view() + left_at(
                v@,
                i + 2,
                "**"@,
                style,
            ));
            (i + 2, "**".to_owned())
        },
    }
}

fn take_italic(v: &Vec<char>, i: usize, plain: &str, style: Style, out: &mut Vec<StyledWord>) -> (r:
    (usize, String))
    requires
        i < v@.len(),
        v@[i as int] == '*',
        !"**"@.is_prefix_of(v@.skip(i as int)),
    ensures
        i < r.0 <= v@.len(),
        old(out).deep_view() + left_at(v@, i as int, plain@, style) == final(out).deep_view()
            + left_at(v@, r.0 as int, r.1@, style),
    decreases v@.len(), 0int,
{
    let ghost rest = v@.skip(i as int);
    let ghost tail = rest.skip(1);
    let ghost before = out.deep_view();
    proof {
        lemma_marks();
        assert(tail =~= v@.skip(i + 1));
    }
    let star = text::chars_of("*");
    push_words(plain, style, out);
    assert(i < v.len());
    match text::find_from(v, i + 1, &star) {
        Some(k) => {
            let inner = part_of(v, i + 1, k);
            assert(inner@ =~= tail.take(k - i - 1));
            parse_inline_rest(&inner, style.add_modifier(Modifier::Italic), out);
            assert(tail.skip(k - i) =~= v@.skip(k + 1));
            assert(k < v.len());
            assert(before + left_at(v@, i as int, plain@, style) =~= out.deep_view() + left_at(
                v@,
                k + 1,
                Seq::empty(),
                style,
            ));
            (k + 1, String::new())
        },
        None => {
            assert(before + left_at(v@, i as int, plain@, style) =~= out.deep_view() + left_at(
                v@,
                i + 1,
                "*"@,
                style,
            ));
            (i + 1, "*".to_owned())
        },
    }
}

fn take_link(v: &Vec<char>, i: usize, plain: &str, style: Style, out: &mut Vec<StyledWord>) -> (r: (
    usize,
    String,
))
    requires
        i < v@.len(),
        v@[i as int] == '[',
    ensures
        i < r.0 <= v@.len(),
        old(out).deep_view() + left_at(v@, i as int, plain@, style) == final(out).deep_view()
            + left_at(v@, r.0 as int, r.1@, style),
{
    let ghost rest = v@.skip(i as int);
    let ghost before = out.deep_view();
    proof {
        lemma_marks();
        lemma_link(rest);
        assert(rest.skip(1) =~= v@.skip(i + 1));
        assert(!"**"@.is_prefix_of(rest)) by {
            assert(rest[0] == '[');
            if "**"@.is_prefix_of(rest) {
                assert(rest.subrange(0, 2)[0] == '*');
            }
        }
    }
    push_words(plain, style, out);
    let text_left = text::string_of(v, i, v.len());
    assert(text_left@ =~= rest);
    proof {
        text::lemma_find(rest, "]"@);
        if text::find(rest, "]"@) == Some(0int) {
            assert(rest.subrange(0, 1)[0] == rest[0]);
        }
    }
    match parse_link_prefix(text_left.as_str()) {
        Some((link, _)) => {
            let n: usize = text::chars_of(link.label.as_str()).len() + text::chars_of(
                link.url.as_str(),
            ).len() + 4;
            let ghost held = out.deep_view();
            let ghost words = link_words(link.label@, link.url@, style);
            let address = text::cat3("(", link.url.as_str(), ")");
            let label = StyledWord {
                text: link.label,
                style: style.fg(Color::Blue).add_modifier(Modifier::Underlined),
            };
            let url = StyledWord { text: address, style: Style::default().fg(Color::DarkGray) };
            assert(label.deep_view() == words[0]);
            assert(url.deep_view() == words[1]);
            out.push(label);
            out.push(url);
            assert(out.deep_view() =~= held + words);
            assert(rest.skip(n as int) =~= v@.skip(i + n));
            assert(i + n <= v.len());
            assert(before + left_at(v@, i as int, plain@, style) =~= out.deep_view() + left_at(
                v@,
                i + n,
                Seq::empty(),
                style,
            ));
            (i + n, String::new())
        },
        None => {
            assert(before + left_at(v@, i as int, plain@, style) =~= out.deep_view() + left_at(
                v@,
                i + 1,
                "["@,
                style,
            ));
            (i + 1, "[".to_owned())
        },
    }
}

proof fn lemma_plain_step(v: Seq<char>, i: int, plain: Seq<char>, style: Style)
    requires
        0 <= i < v.len(),
        v[i] != '`',
        v[i] != '*',
        v[i] != '[',
    ensures
        left_at(v, i, plain, style) == left_at(v, i + 1, plain.push(v[i]), style),
{
    lemma_marks();
    let rest = v.skip(i);
    assert(rest.skip(1) =~= v.skip(i + 1));
    assert(rest[0] == v[i]);
    if "**"@.is_prefix_of(rest) {
        assert(rest.subrange(0, 2)[0] == '*');
    }
}

fn parse_inline_rest(v: &Vec<char>, style: Style, out: &mut Vec<StyledWord>)
    ensures
        final(out).deep_view() == old(out).deep_view() + words_of(v@, style),
    decreases v@.len(), 1int,
{
    let ghost whole = out.deep_view() + words_of(v@, style);
    let stars = text::chars_of("**");
    let mut plain = String::new();
    let mut i: usize = 0;
    assert(v@.skip(0) =~= v@);
    while i < v.len()
        invariant
            i <= v@.len(),
            stars@ == "**"@,
            whole == old(out).deep_view() + words_of(v@, style),
            whole == out.deep_view() + left_at(v@, i as int, plain@, style),
        decreases v@.len() - i,
    {
        let c = v[i];
        if c == '`' {
            match take_code(v, i, plain.as_str(), style, out) {
                Some(n) => {
                    i = n;
                    plain = String::new();
                },
                None => {
                    return ;
                },
            }
        } else if text::matches_at(v, i, &stars) {
            let (n, p) = take_bold(v, i, plain.as_str(), style, out);
            i = n;
            plain = p;
        } else if c == '*' {
            let (n, p) = take_italic(v, i, plain.as_str(), style, out);
            i = n;
            plain = p;
        } else if c == '[' {
            let (n, p) = take_link(v, i, plain.as_str(), style, out);
            i = n;
            plain = p;
        } else {
            proof {
                lemma_plain_step(v@, i as int, plain@, style);
            }
            plain.push(c);
            i = i + 1;
        }
    }
    assert(v@.skip(i as int) =~= Seq::<char>::empty());
    push_words(plain.as_str(), style, out);
}

/// Adds the styled words of a line.
pub fn parse_inline(s: &str, style: Style, out: &mut Vec<StyledWord>)
    ensures
        final(out).deep_view() == old(out).deep_view() + words_of(s@, style),
{
    let v = text::chars_of(s);
    parse_inline_rest(&v, style, out);
}

/// The styled words of a line.
pub fn inline_words(s: &str, base_style: Style) -> (r: Vec<StyledWord>)
    ensures
        r.deep_view() == words_of(s@, base_style),
{
    let mut words: Vec<StyledWord> = Vec::new();
    parse_inline(s, base_style, &mut words);
    assert(words.deep_view() =~= words_of(s@, base_style));
    words
}

// ── Laws ──

proof fn lemma_plain(plain: Seq<char>, rest: Seq<char>, style: Style)
    requires
        !rest.contains('`'),
        !rest.contains('*'),
        !rest.contains('['),
    ensures
        inline(plain, rest, style) == plain_words(plain + rest, style),
    decreases rest.len(),
{
    if rest.len() == 0 {
        assert(plain + rest =~= plain);
    } else {
        let tail = rest.skip(1);
        assert(rest[0] != '`' && rest[0] != '*' && rest[0] != '[');
        lemma_marks();
        if "**"@.is_prefix_of(rest) {
            assert(rest.subrange(0, 2)[0] == '*');
        }
        assert forall|c: char| tail.contains(c) implies rest.contains(c) by {
            let j = choose|j: int| 0 <= j < tail.len() && tail[j] == c;
            assert(rest[j + 1] == c);
        }
        lemma_plain(plain.push(rest[0]), tail, style);
        assert(plain.push(rest[0]) + tail =~= plain + rest);
    }
}

/// Text without marks is its words, in the style of the line.
pub proof fn plain_text_is_kept(s: Seq<char>, style: Style)
    requires
        !s.contains('`'),
        !s.contains('*'),
        !s.contains('['),
    ensures
        words_of(s, style) == plain_words(s, style),
{
    lemma_plain(Seq::empty(), s, style);
    assert(Seq::<char>::empty() + s =~= s);
}

proof fn lemma_find_end(s: Seq<char>, mark: Seq<char>)
    requires
        mark.len() > 0,
        !s.contains(mark[0]),
    ensures
        text::find(s + mark, mark) == Some(s.len() as int),
    decreases s.len(),
{
    let t = s + mark;
    if s.len() == 0 {
        assert(t =~= mark);
        assert(mark.subrange(0, mark.len() as int) =~= mark);
    } else {
        assert(t[0] == s[0]);
        assert(s[0] != mark[0]);
        assert(!mark.is_prefix_of(t)) by {
            if mark.is_prefix_of(t) {
                assert(t.subrange(0, mark.len() as int)[0] == mark[0]);
            }
        }
        let rest = s.drop_first();
        assert(!rest.contains(mark[0])) by {
            if rest.contains(mark[0]) {
                let j = choose|j: int| 0 <= j < rest.len() && rest[j] == mark[0];
                assert(s[j + 1] == mark[0]);
            }
        }
        assert(t.drop_first() =~= rest + mark);
        lemma_find_end(rest, mark);
    }
}

/// Text between double stars is bold.
pub proof fn double_stars_are_bold(s: Seq<char>, style: Style)
    requires
        !s.contains('`'),
        !s.contains('*'),
        !s.contains('['),
    ensures
        words_of("**"@ + s + "**"@, style) == plain_words(
            s,
            style::with_modifier(style, Modifier::Bold),
        ),
{
    lemma_marks();
    let mark = "**"@;
    let whole = mark + s + mark;
    let tail = whole.skip(2);
    assert(tail =~= s + mark);
    assert(mark =~= whole.subrange(0, 2));
    assert(mark.is_prefix_of(whole));
    lemma_find_end(s, mark);
    let bold = style::with_modifier(style, Modifier::Bold);
    assert(tail.take(s.len() as int) =~= s);
    assert(tail.skip(s.len() as int + 2) =~= Seq::<char>::empty());
    plain_text_is_kept(s, bold);
    lemma_no_words(style);
    assert(inline(Seq::empty(), Seq::empty(), style) == plain_words(Seq::empty(), style));
    let inner = inline(Seq::empty(), s, bold);
    assert(plain_words(Seq::empty(), style) + inner + plain_words(Seq::empty(), style) =~= inner);
    assert(whole[0] == '*');
}

proof fn lemma_no_words(style: Style)
    ensures
        plain_words(Seq::empty(), style) == Seq::<WordView>::empty(),
{
    assert(plain_words(Seq::empty(), style) =~= Seq::<WordView>::empty());
}

/// The name of a Rust source file between backquotes is shown in the style of
/// the line, other code in a color of its own.
pub proof fn source_files_are_not_code(s: Seq<char>, style: Style)
    requires
        !s.contains('`'),
    ensures
        words_of("`"@ + s + "`"@, style) == plain_words(
            s,
            if rs_source_ref(s) {
                style
            } else {
                style::colored(Color::Yellow)
            },
        ),
{
    lemma_marks();
    let mark = "`"@;
    let whole = mark + s + mark;
    let tail = whole.skip(1);
    assert(tail =~= s + mark);
    lemma_find_end(s, mark);
    assert(tail.take(s.len() as int) =~= s);
    assert(tail.skip(s.len() as int + 1) =~= Seq::<char>::empty());
    lemma_no_words(style);
    assert(inline(Seq::empty(), Seq::empty(), style) == plain_words(Seq::empty(), style));
    let inner = code_words(s, style);
    assert(plain_words(Seq::empty(), style) + inner + plain_words(Seq::empty(), style) =~= inner);
    assert(whole[0] == '`');
}

proof fn lemma_find_mark(s: Seq<char>, mark: Seq<char>, rest: Seq<char>)
    requires
        mark.len() > 0,
        !s.contains(mark[0]),
    ensures
        text::find(s + mark + rest, mark) == Some(s.len() as int),
    decreases s.len(),
{
    let t = s + mark + rest;
    if s.len() == 0 {
        assert(t.subrange(0, mark.len() as int) =~= mark);
    } else {
        assert(s.contains(s[0]));
        assert(!mark.is_prefix_of(t)) by {
            if mark.is_prefix_of(t) {
                assert(t.subrange(0, mark.len() as int)[0] == mark[0]);
            }
        }
        let less = s.drop_first();
        assert forall|j: int| 0 <= j < less.len() implies less[j] != mark[0] by {
            assert(less[j] == s[j + 1]);
            assert(s.contains(s[j + 1]));
        }
        assert(t.drop_first() =~= less + mark + rest);
        lemma_find_mark(less, mark, rest);
    }
}

/// Whether text without marks ends where something with a mark begins, or at
/// the end of the line.
pub open spec fn starts_marked(rest: Seq<char>) -> bool {
    rest.len() == 0 || rest[0] == '`' || rest[0] == '*' || rest[0] == '['
}

/// Text without marks stands for its words, and what follows it is read as if
/// it stood alone.
pub proof fn text_before_marks_is_kept(s: Seq<char>, rest: Seq<char>, style: Style)
    requires
        !s.contains('`'),
        !s.contains('*'),
        !s.contains('['),
        starts_marked(rest),
    ensures
        words_of(s + rest, style) == plain_words(s, style) + words_of(rest, style),
{
    let none = Seq::<char>::empty();
    lemma_before_marks(none, s, rest, style);
    assert(none + s =~= s);
}

proof fn lemma_before_marks(plain: Seq<char>, s: Seq<char>, rest: Seq<char>, style: Style)
    requires
        !s.contains('`'),
        !s.contains('*'),
        !s.contains('['),
        starts_marked(rest),
    ensures
        inline(plain, s + rest, style) == plain_words(plain + s, style) + words_of(rest, style),
    decreases s.len(),
{
    lemma_marks();
    let none = Seq::<char>::empty();
    if s.len() == 0 {
        assert(s + rest =~= rest);
        assert(plain + s =~= plain);
        lemma_no_words(style);
        assert(words_of(rest, style) == inline(none, rest, style));
        lemma_mark_step(plain, rest, style);
    } else {
        let all = s + rest;
        let less = s.drop_first();
        assert(s.contains(s[0]));
        assert forall|c: char| less.contains(c) implies s.contains(c) by {
            let j = choose|j: int| 0 <= j < less.len() && less[j] == c;
            assert(s[j + 1] == c);
        }
        if "**"@.is_prefix_of(all) {
            assert(all.subrange(0, 2)[0] == '*');
        }
        assert(all.skip(1) =~= less + rest);
        lemma_before_marks(plain.push(s[0]), less, rest, style);
        assert(plain.push(s[0]) + less =~= plain + s);
    }
}

proof fn lemma_mark_step(plain: Seq<char>, rest: Seq<char>, style: Style)
    requires
        starts_marked(rest),
    ensures
        inline(plain, rest, style) == plain_words(plain, style) + inline(Seq::empty(), rest, style),
{
    lemma_marks();
    lemma_no_words(style);
    let none = Seq::<char>::empty();
    let done = plain_words(plain, style);
    assert(inline(plain, rest, style) =~= done + inline(none, rest, style));
}

/// Text between double stars is bold, and what follows is read as if it stood
/// alone.
pub proof fn bold_text_is_read(s: Seq<char>, rest: Seq<char>, style: Style)
    requires
        !s.contains('*'),
    ensures
        words_of("**"@ + s + "**"@ + rest, style) == words_of(
            s,
            style::with_modifier(style, Modifier::Bold),
        ) + words_of(rest, style),
{
    lemma_marks();
    lemma_no_words(style);
    let mark = "**"@;
    let whole = mark + s + mark + rest;
    let tail = whole.skip(2);
    assert(tail =~= s + mark + rest);
    assert(whole.subrange(0, 2) =~= mark);
    assert(whole[0] == '*');
    lemma_find_mark(s, mark, rest);
    assert(tail.take(s.len() as int) =~= s);
    assert(tail.skip(s.len() as int + 2) =~= rest);
    assert(words_of(whole, style) =~= words_of(s, style::with_modifier(style, Modifier::Bold))
        + words_of(rest, style));
}

/// Text between single stars is in italics, and what follows is read as if it
/// stood alone.
pub proof fn italic_text_is_read(s: Seq<char>, rest: Seq<char>, style: Style)
    requires
        s.len() > 0,
        !s.contains('*'),
    ensures
        words_of("*"@ + s + "*"@ + rest, style) == words_of(
            s,
            style::with_modifier(style, Modifier::Italic),
        ) + words_of(rest, style),
{
    lemma_marks();
    lemma_no_words(style);
    let mark = "*"@;
    let whole = mark + s + mark + rest;
    let tail = whole.skip(1);
    assert(tail =~= s + mark + rest);
    assert(s.contains(s[0]));
    assert(whole[0] == '*' && whole[1] == s[0]);
    if "**"@.is_prefix_of(whole) {
        assert(whole.subrange(0, 2)[1] == '*');
    }
    lemma_find_mark(s, mark, rest);
    assert(tail.take(s.len() as int) =~= s);
    assert(tail.skip(s.len() as int + 1) =~= rest);
    assert(words_of(whole, style) =~= words_of(s, style::with_modifier(style, Modifier::Italic))
        + words_of(rest, style));
}

/// Text between backquotes is code, whatever marks it holds, and what follows
/// is read as if it stood alone.
pub proof fn code_is_read(s: Seq<char>, rest: Seq<char>, style: Style)
    requires
        !s.contains('`'),
    ensures
        words_of("`"@ + s + "`"@ + rest, style) == plain_words(
            s,
            if ".rs"@.is_suffix_of(text::trim(s)) {
                style
            } else {
                style::colored(Color::Yellow)
            },
        ) + words_of(rest, style),
{
    lemma_marks();
    lemma_no_words(style);
    let mark = "`"@;
    let whole = mark + s + mark + rest;
    let tail = whole.skip(1);
    assert(tail =~= s + mark + rest);
    assert(whole[0] == '`');
    lemma_find_mark(s, mark, rest);
    assert(tail.take(s.len() as int) =~= s);
    assert(tail.skip(s.len() as int + 1) =~= rest);
    assert(words_of(whole, style) =~= code_words(s, style) + words_of(rest, style));
}

/// A link is shown by its label, underlined, and its address in brackets, and
/// what follows is read as if it stood alone.
pub proof fn links_are_read(label: Seq<char>, url: Seq<char>, rest: Seq<char>, style: Style)
    requires
        !label.contains(']'),
        !url.contains(')'),
    ensures
        ({
            let words = words_of("["@ + label + "]("@ + url + ")"@ + rest, style);
            &&& words.len() == 2 + words_of(rest, style).len()
            &&& words[0].text == label
            &&& words[0].style.underlined
            &&& words[1].text == "("@ + url + ")"@
            &&& words.skip(2) == words_of(rest, style)
        }),
{
    lemma_marks();
    lemma_no_words(style);
    reveal_strlit("](");
    assert("]("@ =~= "]"@ + "("@);
    let whole = "["@ + label + "]("@ + url + ")"@ + rest;
    let head = "["@ + label;
    assert(whole =~= head + "]"@ + ("("@ + url + ")"@ + rest));
    assert forall|j: int| 0 <= j < head.len() implies head[j] != ']' by {
        if j > 0 {
            assert(head[j] == label[j - 1]);
            assert(label.contains(label[j - 1]));
        }
    }
    lemma_find_mark(head, "]"@, "("@ + url + ")"@ + rest);
    let close = head.len() as int;
    let after = whole.skip(close + 1);
    assert(after =~= "("@ + url + ")"@ + rest);
    let inner = "("@ + url;
    assert forall|j: int| 0 <= j < inner.len() implies inner[j] != ')' by {
        if j > 0 {
            assert(inner[j] == url[j - 1]);
            assert(url.contains(url[j - 1]));
        }
    }
    lemma_find_mark(inner, ")"@, rest);
    assert(after =~= inner + ")"@ + rest);
    let end = inner.len() as int;
    assert(whole.subrange(1, close) =~= label);
    assert(after.subrange(1, end) =~= url);
    assert(whole.skip(close + 1 + end + 1) =~= rest);
    assert(whole[0] == '[');
    if "**"@.is_prefix_of(whole) {
        assert(whole.subrange(0, 2)[0] == '*');
    }
    let words = words_of(whole, style);
    assert(words =~= link_words(label, url, style) + words_of(rest, style));
    assert(words.skip(2) =~= words_of(rest, style));
}

/// The words of a text are all in its style, in order, and none is changed.
pub proof fn plain_words_are_words(s: Seq<char>, style: Style, i: int)
    ensures
        plain_words(s, style).len() == text::words(s).len(),
        0 <= i < text::words(s).len() ==> plain_words(s, style)[i].text == text::words(s)[i]
            && plain_words(s, style)[i].style == style,
{
}

proof fn lemma_no_trim(s: Seq<char>)
    requires
        s.len() > 0 ==> !text::is_white(s[0]),
    ensures
        text::trim_start(s) == s,
{
}

proof fn lemma_hashes(n: nat, rest: Seq<char>)
    requires
        rest.len() == 0 || rest[0] != '#',
    ensures
        hashes(text::repeated('#', n) + rest) == n,
    decreases n,
{
    let s = text::repeated('#', n) + rest;
    if n > 0 {
        assert(s.drop_first() =~= text::repeated('#', (n - 1) as nat) + rest);
        lemma_hashes((n - 1) as nat, rest);
    } else {
        assert(s =~= rest);
    }
}

/// A heading is read by its hashes, one to six of them, and its title, whole.
pub proof fn headings_are_read(n: nat, title: Seq<char>)
    requires
        n > 0,
        title.len() > 0,
        !text::is_white(title[0]),
    ensures
        heading(text::repeated('#', n) + seq![' '] + title) == (if n <= 6 {
            Some((n, title))
        } else {
            None
        }),
{
    let line = text::repeated('#', n) + seq![' '] + title;
    let rest = seq![' '] + title;
    assert(line =~= text::repeated('#', n) + rest);
    lemma_hashes(n, rest);
    assert(line[0] == '#');
    lemma_no_trim(line);
    assert(line.skip(n as int) =~= rest);
    assert(rest.drop_first() =~= title);
    lemma_no_trim(title);
    assert(text::trim_start(rest) == text::trim_start(title));
}

/// What is no heading: a line that does not start with a hash.
pub proof fn headings_need_hashes(line: Seq<char>)
    requires
        line.len() > 0,
        !text::is_white(line[0]),
        line[0] != '#',
    ensures
        heading(line) is None,
{
    lemma_no_trim(line);
}

/// A quotation says what stands behind its bracket.
pub proof fn quotations_are_read(s: Seq<char>)
    requires
        s.len() > 0 ==> !text::is_white(s[0]),
    ensures
        quotation("> "@ + s) == Some(s),
        s.len() > 0 && s[0] != '>' ==> quotation(s) is None,
{
    reveal_strlit("> ");
    let line = "> "@ + s;
    lemma_no_trim(line);
    let rest = line.skip(1);
    assert(rest.drop_first() =~= s);
    lemma_no_trim(s);
    assert(text::is_white(rest[0]));
    assert(text::trim_start(rest) == text::trim_start(s));
}

/// A list item is read by its mark, or by its number, and its text, whole.
pub proof fn list_items_are_read(n: u32, s: Seq<char>)
    ensures
        list_item("- "@ + s) == Some((None::<u32>, s)),
        list_item("* "@ + s) == Some((None::<u32>, s)),
        list_item("+ "@ + s) == Some((None::<u32>, s)),
        list_item(number::decimal(n as nat) + ". "@ + s) == Some((Some(n), s)),
{
    reveal_strlit("- ");
    reveal_strlit("* ");
    reveal_strlit("+ ");
    reveal_strlit(". ");
    lemma_bullet("- "@, s);
    lemma_bullet("* "@, s);
    lemma_bullet("+ "@, s);
    let num = number::decimal(n as nat);
    number::lemma_decimal_value(n as nat);
    let line = num + ". "@ + s;
    assert(text::is_digit(num[0]));
    assert(line[0] == num[0]);
    lemma_no_trim(line);
    assert forall|j: int| 0 <= j < num.len() implies num[j] != '.' by {
        assert(text::is_digit(num[j]));
    }
    lemma_find_mark(num, ". "@, s);
    assert(line.take(num.len() as int) =~= num);
    assert(line.skip(num.len() as int + 2) =~= s);
    assert(line.subrange(0, 2)[0] == line[0]);
}

proof fn lemma_bullet(mark: Seq<char>, s: Seq<char>)
    requires
        mark == "- "@ || mark == "* "@ || mark == "+ "@,
    ensures
        list_item(mark + s) == Some((None::<u32>, s)),
{
    reveal_strlit("- ");
    reveal_strlit("* ");
    reveal_strlit("+ ");
    let line = mark + s;
    assert(line[0] == mark[0]);
    lemma_no_trim(line);
    assert(line.subrange(0, 2) =~= mark);
    assert(line.skip(2) =~= s);
}

/// Three or more dashes, stars or underscores are a rule, and nothing else is.
pub proof fn rules_are_read(line: Seq<char>, n: nat)
    ensures
        n >= 3 ==> horizontal_rule(text::repeated('-', n)) && horizontal_rule(
            text::repeated('*', n),
        ) && horizontal_rule(text::repeated('_', n)),
        horizontal_rule(line) ==> text::trim(line).len() >= 3 && (text::trim(line)
            == text::repeated('-', text::trim(line).len()) || text::trim(line) == text::repeated(
            '*',
            text::trim(line).len(),
        ) || text::trim(line) == text::repeated('_', text::trim(line).len())),
{
    if n >= 3 {
        text::trimmed_stays(text::repeated('-', n));
        text::trimmed_stays(text::repeated('*', n));
        text::trimmed_stays(text::repeated('_', n));
    }
    let t = text::trim(line);
    if all_are(t, '-') {
        assert(t =~= text::repeated('-', t.len()));
    }
    if all_are(t, '*') {
        assert(t =~= text::repeated('*', t.len()));
    }
    if all_are(t, '_') {
        assert(t =~= text::repeated('_', t.len()));
    }
}

/// A block of code is opened by three backquotes, with its language behind
/// them.
pub proof fn fences_are_read(lang: Seq<char>)
    requires
        lang.len() > 0 ==> !text::is_white(lang[0]) && !text::is_white(lang.last()),
    ensures
        is_fence("```"@ + lang),
        fence_lang("```"@ + lang) == (if lang.len() > 0 {
            Some(lang)
        } else {
            None
        }),
{
    reveal_strlit("```");
    let line = "```"@ + lang;
    assert(line.last() == (if lang.len() > 0 {
        lang.last()
    } else {
        '`'
    }));
    lemma_no_trim(line);
    text::trimmed_stays(line);
    assert(line.subrange(0, 3) =~= "```"@);
    assert(line.skip(3) =~= lang);
    text::trimmed_stays(lang);
}

/// Whether cells can stand in a row: none is empty or holds a bar.
pub open spec fn can_stand(cells: Seq<Seq<char>>) -> bool {
    forall|i: int|
        0 <= i < cells.len() ==> (#[trigger] cells[i]).len() > 0 && !cells[i].contains('|')
}

proof fn lemma_pieces_joined(cells: Seq<Seq<char>>)
    requires
        cells.len() > 0,
        can_stand(cells),
    ensures
        text::pieces(text::joined(cells, seq!['|']), '|') == cells,
        text::joined(cells, seq!['|']).len() > 0,
        text::joined(cells, seq!['|'])[0] != '|',
        text::joined(cells, seq!['|']).last() != '|',
    decreases cells.len(),
{
    let bar = seq!['|'];
    assert(cells[0].len() > 0 && !cells[0].contains('|'));
    assert(cells[0].contains(cells[0][0]));
    assert(cells[0].contains(cells[0].last()));
    if cells.len() == 1 {
        text::pieces_end_at_the_character(cells[0], Seq::empty(), '|');
        assert(cells =~= seq![cells[0]]);
    } else {
        let rest = cells.drop_first();
        assert forall|i: int| 0 <= i < rest.len() implies (#[trigger] rest[i]).len() > 0
            && !rest[i].contains('|') by {
            assert(rest[i] == cells[i + 1]);
        }
        lemma_pieces_joined(rest);
        text::joining_keeps_parts(seq![cells[0]], rest, bar);
        assert(seq![cells[0]] + rest =~= cells);
        text::pieces_end_at_the_character(cells[0], text::joined(rest, bar), '|');
    }
}

/// A row of a table is read cell by cell, each whole but for white space at its
/// ends.
pub proof fn rows_are_read(cells: Seq<Seq<char>>, i: int)
    requires
        0 <= i < cells.len(),
        can_stand(cells),
    ensures
        ({
            let line = seq!['|'] + text::joined(cells, seq!['|']) + seq!['|'];
            &&& table_row(line)
            &&& table_cells(line).len() == cells.len()
            &&& table_cells(line)[i] == text::trim(cells[i])
        }),
{
    let inner = text::joined(cells, seq!['|']);
    let line = seq!['|'] + inner + seq!['|'];
    lemma_pieces_joined(cells);
    text::trimmed_stays(line);
    text::stripping_takes_copies(inner + seq!['|'], '|');
    assert(line =~= seq!['|'] + (inner + seq!['|']));
    assert(text::strip_start(line, '|') == inner + seq!['|']);
    text::stripping_takes_copies(inner, '|');
    assert(inner + seq!['|'] =~= inner.push('|'));
    assert(text::strip(line, '|') == inner);
}

/// Stars and brackets without their counterpart are text.
pub proof fn single_marks_are_text(s: Seq<char>, style: Style)
    requires
        !s.contains('`'),
        !s.contains('*'),
        !s.contains('['),
        !s.contains(']'),
    ensures
        words_of("**"@ + s, style) == plain_words("**"@ + s, style),
        words_of("*"@ + s, style) == plain_words("*"@ + s, style),
        words_of("["@ + s, style) == plain_words("["@ + s, style),
{
    lemma_marks();
    lemma_no_words(style);
    let none = Seq::<WordView>::empty();
    let two = "**"@ + s;
    let one = "*"@ + s;
    let open = "["@ + s;
    lemma_plain("**"@, s, style);
    lemma_plain("*"@, s, style);
    lemma_plain("["@, s, style);
    assert(two.skip(2) =~= s);
    assert(two.subrange(0, 2) =~= "**"@);
    assert(two[0] == '*');
    text::lemma_find(s, "**"@);
    if let Some(k) = text::find(s, "**"@) {
        assert(s.subrange(k, k + 2)[0] == s[k]);
        assert(s.contains(s[k]));
    }
    assert(none + plain_words(two, style) =~= plain_words(two, style));
    assert(one.skip(1) =~= s);
    assert(one[0] == '*');
    if "**"@.is_prefix_of(one) {
        assert(one.subrange(0, 2)[1] == s[0]);
        assert(s.contains(s[0]));
    }
    text::lemma_find(s, "*"@);
    if let Some(k) = text::find(s, "*"@) {
        assert(s.subrange(k, k + 1)[0] == s[k]);
        assert(s.contains(s[k]));
    }
    assert(none + plain_words(one, style) =~= plain_words(one, style));
    assert(open.skip(1) =~= s);
    assert(open[0] == '[');
    if "**"@.is_prefix_of(open) {
        assert(open.subrange(0, 2)[0] == '*');
    }
    text::lemma_find(open, "]"@);
    if let Some(k) = text::find(open, "]"@) {
        assert(open.subrange(k, k + 1)[0] == open[k]);
        if k > 0 {
            assert(open[k] == s[k - 1]);
            assert(s.contains(s[k - 1]));
        }
    }
    assert(none + plain_words(open, style) =~= plain_words(open, style));
}

proof fn lemma_strip_keeps(s: Seq<char>, c: char, d: char)
    requires
        d != c,
        s.contains(d),
    ensures
        text::strip(s, c).contains(d),
{
    lemma_strip_start_keeps(s, c, d);
    lemma_strip_end_keeps(text::strip_start(s, c), c, d);
}

proof fn lemma_strip_start_keeps(s: Seq<char>, c: char, d: char)
    requires
        d != c,
        s.contains(d),
    ensures
        text::strip_start(s, c).contains(d),
    decreases s.len(),
{
    if s.len() > 0 && s[0] == c {
        let i = choose|i: int| 0 <= i < s.len() && s[i] == d;
        assert(s.drop_first()[i - 1] == d);
        lemma_strip_start_keeps(s.drop_first(), c, d);
    }
}

proof fn lemma_strip_end_keeps(s: Seq<char>, c: char, d: char)
    requires
        d != c,
        s.contains(d),
    ensures
        text::strip_end(s, c).contains(d),
    decreases s.len(),
{
    if s.len() > 0 && s.last() == c {
        let i = choose|i: int| 0 <= i < s.len() && s[i] == d;
        assert(s.drop_last()[i] == d);
        lemma_strip_end_keeps(s.drop_last(), c, d);
    }
}

/// A row of dashes divides a table; one that says anything does not.
pub proof fn dividing_rows_say_nothing(line: Seq<char>, c: char, n: nat)
    ensures
        n > 0 ==> table_row(seq!['|'] + text::repeated('-', n) + seq!['|']) && table_separator(
            seq!['|'] + text::repeated('-', n) + seq!['|'],
        ),
        text::trim(line).contains(c) && c != '-' && c != ':' && c != ' ' && c != '|'
            ==> !table_separator(line),
{
    if n > 0 {
        let inner = text::repeated('-', n);
        let row = seq!['|'] + inner + seq!['|'];
        text::trimmed_stays(row);
        text::stripping_takes_copies(inner + seq!['|'], '|');
        assert(row =~= seq!['|'] + (inner + seq!['|']));
        text::stripping_takes_copies(inner, '|');
        assert(inner + seq!['|'] =~= inner.push('|'));
        assert(text::strip(row, '|') == inner);
        assert(inner[0] == '-');
    }
    if text::trim(line).contains(c) && c != '-' && c != ':' && c != ' ' && c != '|' {
        lemma_strip_keeps(text::trim(line), '|', c);
        let t = text::strip(text::trim(line), '|');
        let i = choose|i: int| 0 <= i < t.len() && t[i] == c;
        assert(!is_rule_char(t[i]));
    }
}

} // verus!
