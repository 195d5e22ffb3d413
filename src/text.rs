use vstd::prelude::*;

verus! {

/// Whether `c` has the Unicode `Alphabetic` property.
pub uninterp spec fn is_alphabetic(c: char) -> bool;

/// An ASCII Latin letter.
pub open spec fn is_ascii_letter(c: char) -> bool {
    ('a' <= c && c <= 'z') || ('A' <= c && c <= 'Z')
}

/// A letter: within ASCII one of the Latin letters, beyond it a character
/// with the Unicode `Alphabetic` property.
pub open spec fn is_letter(c: char) -> bool {
    if c <= '\x7f' {
        is_ascii_letter(c)
    } else {
        is_alphabetic(c)
    }
}

/// Relies on `char::is_alphabetic`: whether `c` has the Unicode `Alphabetic`
/// property, which depends on `c` alone; within ASCII that holds of the
/// Latin letters only (the function tests `'a'..='z' | 'A'..='Z'` first and
/// consults the Unicode table only above `'\x7f'`).
#[verifier::external_body]
pub(crate) fn alphabetic(c: char) -> (r: bool)
    ensures
        r == is_alphabetic(c),
        c <= '\x7f' ==> r == is_ascii_letter(c),
{
    c.is_alphabetic()
}

/// Relies on `String::push`: appends `c` to the end of `s`.
#[verifier::external_body]
pub(crate) fn push_char(s: &mut String, c: char)
    ensures
        final(s)@ == old(s)@.push(c),
{
    s.push(c)
}

/// A decimal digit `0`..`9`.
pub open spec fn is_decimal_digit(c: char) -> bool {
    '0' <= c && c <= '9'
}

/// Whether `c` is a decimal digit.
pub fn is_digit(c: char) -> (r: bool)
    ensures
        r == is_decimal_digit(c),
{
    '0' <= c && c <= '9'
}

} // verus!
