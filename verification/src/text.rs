//! Texts: the few things done with them that the standard library does
//! and this library reasons about.

use vstd::prelude::*;

verus! {

/// The lower-case form of a text, as `str::to_lowercase` gives it.
pub uninterp spec fn lowercase(text: Seq<char>) -> Seq<char>;

/// The lower-case form of a text.
///
/// This is `str::to_lowercase` of the standard library, which maps each
/// character by the Unicode tables.
#[verifier::external_body]
pub(crate) fn to_lowercase(text: &str) -> (lower: String)
    ensures
        lower@ == lowercase(text@),
{
    text.to_lowercase()
}

/// `text` starts with `prefix`.
pub open spec fn has_prefix(text: Seq<char>, prefix: Seq<char>) -> bool {
    prefix.len() <= text.len() && text.subrange(0, prefix.len() as int) == prefix
}

/// `text` without `prefix` at its start; `text` itself where it does not
/// start with it.
pub open spec fn without_prefix(text: Seq<char>, prefix: Seq<char>) -> Seq<char> {
    if has_prefix(text, prefix) {
        text.subrange(prefix.len() as int, text.len() as int)
    } else {
        text
    }
}

/// What follows `prefix` in `text`, where `text` starts with it.
///
/// This is `str::strip_prefix` of the standard library with a string as
/// the pattern.
#[verifier::external_body]
pub(crate) fn strip_prefix<'a>(text: &'a str, prefix: &str) -> (rest: Option<&'a str>)
    ensures
        rest is Some <==> has_prefix(text@, prefix@),
        rest is Some ==> rest->0@ == text@.subrange(prefix@.len() as int, text@.len() as int),
{
    text.strip_prefix(prefix)
}

/// Whether two texts are the same, character by character.
///
/// This is the equality of the standard library's `str`.
#[verifier::external_body]
pub(crate) fn same(a: &str, b: &str) -> (yes: bool)
    ensures
        yes == (a@ == b@),
{
    a == b
}

/// `a` followed by `b`.
///
/// The standard library's `format!` with two `{}` places and nothing
/// between them: each place shows its string as it is.
#[verifier::external_body]
pub(crate) fn concat(a: &str, b: &str) -> (s: String)
    ensures
        s@ == a@ + b@,
{
    format!("{}{}", a, b)
}

/// `text` without `prefix` at its start.
pub(crate) fn strip<'a>(text: &'a str, prefix: &str) -> (rest: &'a str)
    ensures
        rest@ == without_prefix(text@, prefix@),
{
    match strip_prefix(text, prefix) {
        Some(rest) => rest,
        None => text,
    }
}

} // verus!
