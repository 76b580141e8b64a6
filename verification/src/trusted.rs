//! What the proofs take on trust of the standard library. Nothing in this
//! file is proved; everything else in the crate is.

use vstd::prelude::*;

verus! {

/// `String::push` appends the one character to the end of the string and
/// leaves what was there as it was.
pub assume_specification[ String::push ](s: &mut String, ch: char)
    ensures
        final(s)@ == old(s)@.push(ch),
;

/// The uppercase mapping of `c` in the standard library's Unicode tables: one
/// character for most, two or three for a few (`ß` maps to `SS`). The mapping
/// depends on `c` alone, not on language or context.
pub uninterp spec fn uppercase_mapping(c: char) -> Seq<char>;

/// `char::to_uppercase`, with the characters it yields collected in order.
/// Taken on trust: what comes back is a function of `c` alone, here called
/// `uppercase_mapping(c)`, and holds at least one character.
#[verifier::external_body]
pub(crate) fn to_uppercase(c: char) -> (upper: String)
    ensures
        upper@ == uppercase_mapping(c),
        upper@.len() >= 1,
{
    c.to_uppercase().collect()
}

} // verus!
