//! Display widths in terminal columns.
use vstd::prelude::*;

verus! {

/// The number of columns that `unicode_width` gives `s`.
pub uninterp spec fn text_width(s: Seq<char>) -> usize;

/// The number of columns that `unicode_width` gives `c`; `None` for a control
/// character.
pub uninterp spec fn char_width(c: char) -> Option<usize>;

pub open spec fn is_printable_ascii(c: char) -> bool {
    '\u{20}' <= c <= '\u{7e}'
}

/// The columns of one character, none for a control character.
pub open spec fn columns(c: char) -> usize {
    match char_width(c) {
        Some(n) => n,
        None => 0,
    }
}

/// Calls `UnicodeWidthStr::width`. Printable ASCII takes a column for each
/// character.
#[verifier::external_body]
pub(crate) fn display_width(s: &str) -> (r: usize)
    ensures
        r == text_width(s@),
        (forall|i: int| 0 <= i < s@.len() ==> is_printable_ascii(#[trigger] s@[i])) ==> r == s@.len(),
{
    unicode_width::UnicodeWidthStr::width(s)
}

/// Calls `UnicodeWidthChar::width`. Printable ASCII takes one column.
#[verifier::external_body]
pub(crate) fn width_of_char(c: char) -> (r: Option<usize>)
    ensures
        r == char_width(c),
        is_printable_ascii(c) ==> r == Some(1usize),
{
    unicode_width::UnicodeWidthChar::width(c)
}

pub fn columns_of(c: char) -> (r: usize)
    ensures
        r == columns(c),
        is_printable_ascii(c) ==> r == 1,
{
    match width_of_char(c) {
        Some(n) => n,
        None => 0,
    }
}

/// The text that `textwrap::fill` makes of `s` for lines of `width` columns.
pub uninterp spec fn text_filled(s: Seq<char>, width: usize) -> Seq<char>;

/// Calls `textwrap::fill` with a width.
#[verifier::external_body]
pub(crate) fn fill(s: &str, width: usize) -> (r: String)
    ensures
        r@ == text_filled(s@, width),
{
    textwrap::fill(s, width)
}

// ── Laws ──

/// A character takes the columns that it has; one that has none takes none.
pub proof fn characters_take_their_columns(c: char, n: usize)
    ensures
        char_width(c) == Some(n) ==> columns(c) == n,
        char_width(c) is None ==> columns(c) == 0,
{
}

} // verus!
