//! What the standard library decides about single characters, and the one
//! string operation the analysis needs that `vstd` leaves unspecified.
//!
//! Unicode's character classes are tables of some thousand entries, so they
//! are named here rather than written out: every contract in this crate that
//! depends on a class says so through one of these names.

use vstd::prelude::*;

verus! {

/// Whether `c` has the Unicode property `White_Space`.
pub uninterp spec fn char_is_whitespace(c: char) -> bool;

/// Whether `c` has the Unicode property `Alphabetic`.
pub uninterp spec fn char_is_alphabetic(c: char) -> bool;

/// Whether `c` is alphabetic or numeric in Unicode's sense.
pub uninterp spec fn char_is_alphanumeric(c: char) -> bool;

/// The lowercase mapping of `c`: the characters that stand for `c` in
/// lowercase, in order.
pub uninterp spec fn char_lowercase(c: char) -> Seq<char>;

/// `char::is_whitespace` depends on the character alone; its answer is what
/// `char_is_whitespace` names. Nothing else is claimed of it.
pub assume_specification[ char::is_whitespace ](c: char) -> (b: bool)
    ensures
        b == char_is_whitespace(c),
;

/// `char::is_alphabetic` depends on the character alone; its answer is what
/// `char_is_alphabetic` names. Nothing else is claimed of it.
pub assume_specification[ char::is_alphabetic ](c: char) -> (b: bool)
    ensures
        b == char_is_alphabetic(c),
;

/// `char::is_alphanumeric` depends on the character alone; its answer is what
/// `char_is_alphanumeric` names. Nothing else is claimed of it.
pub assume_specification[ char::is_alphanumeric ](c: char) -> (b: bool)
    ensures
        b == char_is_alphanumeric(c),
;

/// `String::push` appends the character to the end of the string and leaves
/// the characters before it as they were.
pub assume_specification[ String::push ](s: &mut String, c: char)
    ensures
        final(s)@ == old(s)@.push(c),
;

/// Calls `char::to_lowercase` and collects the characters that its iterator
/// yields. They depend on the character alone and are what `char_lowercase`
/// names. Nothing else is claimed of them.
#[verifier::external_body]
pub(crate) fn lowercase(c: char) -> (lower: Vec<char>)
    ensures
        lower@ == char_lowercase(c),
{
    c.to_lowercase().collect()
}

} // verus!
