//! Regular expressions and file name patterns.
use vstd::prelude::*;
use crate::text;

verus! {

/// What `Regex::is_match` says of `text` for the expression `pattern`; `None`
/// where `pattern` does not compile.
pub uninterp spec fn regex_match(pattern: Seq<char>, text: Seq<char>) -> Option<bool>;

/// The message with which `Regex::new` refuses `pattern`; `None` where it
/// compiles.
pub uninterp spec fn regex_error(pattern: Seq<char>) -> Option<Seq<char>>;

/// What `glob::Pattern::matches` says of `name`; `None` where `pattern` is no
/// file name pattern.
pub uninterp spec fn glob_match(pattern: Seq<char>, name: Seq<char>) -> Option<bool>;

pub open spec fn is_word_char(c: char) -> bool {
    'a' <= c <= 'z' || 'A' <= c <= 'Z' || '0' <= c <= '9' || c == '_'
}

/// A short name of ASCII letters, digits and underscores.
pub open spec fn is_plain_name(w: Seq<char>) -> bool {
    w.len() <= 1000 && forall|i: int| 0 <= i < w.len() ==> is_word_char(#[trigger] w[i])
}

/// Compiles `pattern` with `regex::Regex::new` and asks `is_match`. Of the
/// answer it also says, for a short plain name `w`: `^w$` matches `w` alone,
/// `^.*$` matches the texts without line feed, and `^w..*$` those that go on
/// after `w` without line feed.
#[verifier::external_body]
pub(crate) fn regex_is_match(pattern: &str, text: &str) -> (r: Option<bool>)
    ensures
        r == regex_match(pattern@, text@),
        r is Some <==> regex_error(pattern@) is None,
        pattern@ == "^.*$"@ ==> r == Some(!text@.contains('\n')),
        forall|w: Seq<char>| is_plain_name(w) && pattern@ == #[trigger] exactly(w) ==> r == Some(text@ == w),
        forall|w: Seq<char>| is_plain_name(w) && pattern@ == #[trigger] going_on(w) ==> r == Some(
            w.is_prefix_of(text@) && w.len() < text@.len() && !text@.contains('\n'),
        ),
{
    regex::Regex::new(pattern).ok().map(|re| re.is_match(text))
}

/// The expression that matches `w` alone.
pub open spec fn exactly(w: Seq<char>) -> Seq<char> {
    seq!['^'] + w + seq!['$']
}

/// The expression for `w` with at least one character behind it.
pub open spec fn going_on(w: Seq<char>) -> Seq<char> {
    seq!['^'] + w + seq!['.', '.', '*'] + seq!['$']
}

/// The message of the error of `regex::Regex::new`.
#[verifier::external_body]
pub(crate) fn regex_refusal(pattern: &str) -> (r: Option<String>)
    ensures
        r.deep_view() == regex_error(pattern@),
{
    regex::Regex::new(pattern).err().map(|e| e.to_string())
}

/// Compiles `pattern` with `glob::Pattern::new` and asks `matches`. Of the
/// answer it also says: `*` matches any name, and `*` before a plain ending
/// the names with that ending.
#[verifier::external_body]
pub(crate) fn glob_is_match(pattern: &str, name: &str) -> (r: Option<bool>)
    ensures
        r == glob_match(pattern@, name@),
        forall|w: Seq<char>| is_plain_ending(w) && pattern@ == #[trigger] ending_in(w) ==> r == Some(
            w.is_suffix_of(name@),
        ),
{
    glob::Pattern::new(pattern).ok().map(|p| p.matches(name))
}

/// A text of ASCII letters, digits, underscores and dots.
pub open spec fn is_plain_ending(w: Seq<char>) -> bool {
    forall|i: int| 0 <= i < w.len() ==> is_word_char(#[trigger] w[i]) || w[i] == '.'
}

/// The file name pattern for the names that end in `w`.
pub open spec fn ending_in(w: Seq<char>) -> Seq<char> {
    seq!['*'] + w
}

// ── Tool name patterns ──

/// The regular expression of a tool name pattern, in which `*` stands for any
/// run of characters and `?` for any one.
pub open spec fn wildcard_regex(pattern: Seq<char>) -> Seq<char> {
    seq!['^'] + text::swap_char(text::swap_char(pattern, '*', ".*"@), '?', "."@) + seq!['$']
}

/// Whether a tool name pattern matches `name`; a pattern that gives no valid
/// expression matches nothing.
pub open spec fn wildcard(pattern: Seq<char>, name: Seq<char>) -> bool {
    regex_match(wildcard_regex(pattern), name) == Some(true)
}

pub fn wildcard_match(pattern: &str, name: &str) -> (r: bool)
    ensures
        r == wildcard(pattern@, name@),
        pattern@ == "*"@ ==> r == !name@.contains('\n'),
        is_plain_name(pattern@) ==> r == (name@ == pattern@),
        forall|w: Seq<char>| is_plain_name(w) && pattern@ == #[trigger] family(w) ==> r == (
            w.is_prefix_of(name@) && w.len() < name@.len() && !name@.contains('\n')
        ),
{
    let a = text::replace_char(pattern, '*', ".*");
    let b = text::replace_char(a.as_str(), '?', ".");
    let e = text::cat3("^", b.as_str(), "$");
    proof {
        reveal_strlit("^");
        reveal_strlit("$");
        reveal_strlit("*");
        reveal_strlit(".*");
        reveal_strlit(".");
        reveal_strlit("^.*$");
        assert("^"@ =~= seq!['^']);
        assert("$"@ =~= seq!['$']);
        assert(e@ =~= wildcard_regex(pattern@));
        if pattern@ == "*"@ {
            assert("*"@ =~= Seq::<char>::empty().push('*'));
            lemma_swap_push(Seq::empty(), '*', '*', ".*"@);
            assert(a@ =~= ".*"@);
            assert(".*"@ =~= seq!['.', '*']);
            lemma_swap_absent(a@, '?', "."@);
            assert(e@ =~= "^.*$"@);
        }
        if is_plain_name(pattern@) {
            lemma_swap_absent(pattern@, '*', ".*"@);
            lemma_swap_absent(pattern@, '?', "."@);
            assert(e@ =~= exactly(pattern@));
        }
        assert forall|w: Seq<char>| is_plain_name(w) && pattern@ == #[trigger] family(w) implies e@
            == going_on(w) by {
            lemma_swap_absent(w, '*', ".*"@);
            lemma_swap_push(w, '.', '*', ".*"@);
            lemma_swap_push(w.push('.'), '*', '*', ".*"@);
            assert(pattern@ =~= w.push('.').push('*'));
            assert(a@ =~= w + seq!['.', '.', '*']);
            lemma_swap_absent(a@, '?', "."@);
            assert(e@ =~= going_on(w));
        }
    }
    match regex_is_match(e.as_str(), name) {
        Some(m) => m,
        None => false,
    }
}

/// The pattern for the names that go on after `w`.
pub open spec fn family(w: Seq<char>) -> Seq<char> {
    w + seq!['.', '*']
}

proof fn lemma_swap_push(s: Seq<char>, last: char, c: char, to: Seq<char>)
    ensures
        text::swap_char(s.push(last), c, to) == text::swap_char(s, c, to) + (if last == c {
            to
        } else {
            seq![last]
        }),
{
    assert(s.push(last).drop_last() =~= s);
}

proof fn lemma_swap_absent(s: Seq<char>, c: char, to: Seq<char>)
    requires
        !s.contains(c),
    ensures
        text::swap_char(s, c, to) == s,
    decreases s.len(),
{
    if s.len() > 0 {
        assert(s.last() == s[s.len() - 1]);
        assert forall|i: int| 0 <= i < s.drop_last().len() implies s.drop_last()[i] != c by {
            assert(s[i] == s.drop_last()[i]);
        }
        lemma_swap_absent(s.drop_last(), c, to);
        assert(s.drop_last() + seq![s.last()] =~= s);
    }
}

// ── Laws ──

/// The part of a tool name pattern's expression between its ends.
pub open spec fn wildcard_body(pattern: Seq<char>) -> Seq<char> {
    wildcard_regex(pattern).subrange(1, wildcard_regex(pattern).len() - 1)
}

/// A tool name pattern is read character by character: a star stands for any
/// run of characters, a question mark for any one, and any other character is
/// taken over. The expression speaks of the whole name.
pub proof fn wildcards_go_by_characters(a: Seq<char>, b: Seq<char>, c: char)
    ensures
        wildcard_body(a + b) == wildcard_body(a) + wildcard_body(b),
        wildcard_body(seq!['*']) == seq!['.', '*'],
        wildcard_body(seq!['?']) == seq!['.'],
        c != '*' && c != '?' ==> wildcard_body(seq![c]) == seq![c],
        wildcard_regex(a)[0] == '^',
        wildcard_regex(a).last() == '$',
{
    reveal_strlit(".*");
    reveal_strlit(".");
    assert(".*"@ =~= seq!['.', '*']);
    assert("."@ =~= seq!['.']);
    lemma_body(a);
    lemma_body(b);
    lemma_body(a + b);
    lemma_body(seq!['*']);
    lemma_body(seq!['?']);
    lemma_body(seq![c]);
    text::swapping_goes_by_characters(a, b, '*', ".*"@);
    text::swapping_goes_by_characters(
        text::swap_char(a, '*', ".*"@),
        text::swap_char(b, '*', ".*"@),
        '?',
        "."@,
    );
    text::swapping_goes_by_characters(seq!['.'], seq!['*'], '?', "."@);
    assert(seq!['.', '*'] =~= seq!['.'] + seq!['*']);
    assert(text::swap_char(seq!['.'], '?', "."@) == seq!['.']);
    assert(text::swap_char(seq!['*'], '?', "."@) == seq!['*']);
    assert(text::swap_char(seq!['?'], '*', ".*"@) == seq!['?']);
    assert(text::swap_char(seq!['?'], '?', "."@) == "."@);
    if c != '*' && c != '?' {
        assert(text::swap_char(seq![c], '*', ".*"@) == seq![c]);
        assert(text::swap_char(seq![c], '?', "."@) == seq![c]);
    }
}

proof fn lemma_body(pattern: Seq<char>)
    ensures
        wildcard_body(pattern) == text::swap_char(
            text::swap_char(pattern, '*', ".*"@),
            '?',
            "."@,
        ),
{
    assert(wildcard_body(pattern) =~= text::swap_char(
        text::swap_char(pattern, '*', ".*"@),
        '?',
        "."@,
    ));
}

/// A pattern that gives no valid expression matches nothing; else the
/// expression decides.
pub proof fn expressions_decide(pattern: Seq<char>, name: Seq<char>)
    ensures
        wildcard(pattern, name) <==> regex_match(wildcard_regex(pattern), name) == Some(true),
{
}

} // verus!
