//! A single trusted helper for building strings character by character.

use vstd::prelude::*;

verus! {

/// Relies on String::push: appends the given character to the end of the
/// string, changing nothing else.
#[verifier::external_body]
pub(crate) fn push_char(s: &mut String, c: char)
    ensures
        final(s)@ == old(s)@.push(c),
{
    s.push(c);
}

/// Relies on char::from_u32: returns the character with the given code
/// point exactly when the value is a Unicode scalar value (not a
/// surrogate, at most 0x10FFFF), and nothing otherwise.
#[verifier::external_body]
pub(crate) fn char_from_u32(v: u32) -> (r: Option<char>)
    ensures
        match r {
            Some(c) => crate::args::is_scalar_value(v) && c as u32 == v,
            None => !crate::args::is_scalar_value(v),
        },
{
    char::from_u32(v)
}

} // verus!
