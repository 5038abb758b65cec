//! Unicode character classes, as `char`'s methods answer them.
use vstd::prelude::*;

verus! {

/// Whether `c` has the Unicode `Alphabetic` property (what `char::is_alphabetic` returns).
pub uninterp spec fn unicode_alphabetic(c: char) -> bool;

/// Whether `c` is in one of the Unicode number categories `Nd`, `Nl`, `No`
/// (what `char::is_numeric` returns).
pub uninterp spec fn unicode_numeric(c: char) -> bool;

/// Whether `c` is an ASCII letter.
pub open spec fn ascii_letter(c: char) -> bool {
    ('a' <= c && c <= 'z') || ('A' <= c && c <= 'Z')
}

/// Whether `c` is an ASCII digit.
pub open spec fn ascii_digit(c: char) -> bool {
    '0' <= c && c <= '9'
}

/// `char::is_alphabetic`. Its documentation defines the answer by the Unicode
/// `Alphabetic` property, which is named here and not written out. Of ASCII
/// characters that property holds exactly for the letters.
#[verifier::external_body]
pub(crate) fn is_alphabetic(c: char) -> (b: bool)
    ensures
        b == unicode_alphabetic(c),
        (c as u32) < 128 ==> (b <==> ascii_letter(c)),
{
    c.is_alphabetic()
}

/// `char::is_numeric`. Its documentation defines the answer by the Unicode
/// general categories `Nd`, `Nl` and `No`, named here and not written out. Of
/// ASCII characters only the digits are in them (category `Nd`).
#[verifier::external_body]
pub(crate) fn is_numeric(c: char) -> (b: bool)
    ensures
        b == unicode_numeric(c),
        (c as u32) < 128 ==> (b <==> ascii_digit(c)),
{
    c.is_numeric()
}

/// `char::is_alphanumeric`, which its documentation defines as
/// `is_alphabetic() || is_numeric()`.
#[verifier::external_body]
pub(crate) fn is_alphanumeric(c: char) -> (b: bool)
    ensures
        b == (unicode_alphabetic(c) || unicode_numeric(c)),
{
    c.is_alphanumeric()
}

} // verus!
