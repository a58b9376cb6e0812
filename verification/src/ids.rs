//! Fresh identifiers.
use vstd::prelude::*;
use vstd::utf8::*;

verus! {

/// Whether `id` is 36 ASCII characters, as every fresh identifier is.
pub open spec fn is_fresh_form(id: Seq<char>) -> bool {
    id.len() == 36 && is_ascii_chars(id)
}

/// Prints a random identifier from `uuid::Uuid::new_v4`. Its text is the
/// hyphenated form: 36 ASCII characters. Which identifier comes is left to
/// chance, and nothing is said of it.
#[verifier::external_body]
pub(crate) fn fresh_id() -> (r: String)
    ensures
        is_fresh_form(r@),
{
    uuid::Uuid::new_v4().to_string()
}

} // verus!
