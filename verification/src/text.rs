//! Building text from raw bytes, one character per byte.

use vstd::prelude::*;

verus! {

/// Each byte read as one character, in order (a Latin-1-style mapping,
/// not UTF-8 decoding).
pub open spec fn bytes_as_chars(s: Seq<u8>) -> Seq<char> {
    s.map_values(|b: u8| b as char)
}

/// Relies on String::push: appends exactly one character.
#[verifier::external_body]
pub(crate) fn push_char(s: &mut String, c: char)
    ensures
        final(s)@ == old(s)@.push(c),
{
    s.push(c);
}

} // verus!
