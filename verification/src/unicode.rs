//! Unicode character classification from std's `char` methods. For ASCII
//! characters the result is written out as std documents it; beyond ASCII it is
//! named by a spec function.
use crate::text::{ascii_lower, is_ascii_alpha, is_ascii_digit, is_ascii_lower, is_ascii_upper};
use vstd::prelude::*;

verus! {

/// What `char::is_uppercase` returns for a character beyond ASCII.
pub uninterp spec fn uppercase_beyond_ascii(c: char) -> bool;

/// What `char::is_lowercase` returns for a character beyond ASCII.
pub uninterp spec fn lowercase_beyond_ascii(c: char) -> bool;

/// What `char::is_alphabetic` returns for a character beyond ASCII.
pub uninterp spec fn alphabetic_beyond_ascii(c: char) -> bool;

/// What `char::is_numeric` returns for a character beyond ASCII.
pub uninterp spec fn numeric_beyond_ascii(c: char) -> bool;

/// What `char::to_lowercase` yields for a character beyond ASCII.
pub uninterp spec fn lowercase_chars_beyond_ascii(c: char) -> Seq<char>;

/// Whether `char::is_uppercase` holds for `c`: for ASCII exactly `'A'..='Z'`, as
/// std documents.
pub open spec fn unicode_is_uppercase(c: char) -> bool {
    if (c as u32) < 128 {
        is_ascii_upper(c)
    } else {
        uppercase_beyond_ascii(c)
    }
}

/// Whether `char::is_lowercase` holds for `c`: for ASCII exactly `'a'..='z'`.
pub open spec fn unicode_is_lowercase(c: char) -> bool {
    if (c as u32) < 128 {
        is_ascii_lower(c)
    } else {
        lowercase_beyond_ascii(c)
    }
}

/// Whether `char::is_alphabetic` holds for `c`: for ASCII exactly the letters.
pub open spec fn unicode_is_alphabetic(c: char) -> bool {
    if (c as u32) < 128 {
        is_ascii_alpha(c)
    } else {
        alphabetic_beyond_ascii(c)
    }
}

/// Whether `char::is_numeric` holds for `c`: for ASCII exactly `'0'..='9'`.
pub open spec fn unicode_is_numeric(c: char) -> bool {
    if (c as u32) < 128 {
        is_ascii_digit(c)
    } else {
        numeric_beyond_ascii(c)
    }
}

/// What `char::to_lowercase` yields for `c`: for ASCII the one character
/// `c.to_ascii_lowercase()`.
pub open spec fn unicode_to_lowercase(c: char) -> Seq<char> {
    if (c as u32) < 128 {
        seq![ascii_lower(c)]
    } else {
        lowercase_chars_beyond_ascii(c)
    }
}

/// Calls `char::is_uppercase` (Unicode `Uppercase` property). Claimed: the result is
/// `unicode_is_uppercase(c)`, and for ASCII it is exactly `'A'..='Z'`, as std documents.
#[verifier::external_body]
pub(crate) fn char_is_uppercase(c: char) -> (r: bool)
    ensures
        r == unicode_is_uppercase(c),
        (c as u32) >= 128 ==> r == uppercase_beyond_ascii(c),
{
    c.is_uppercase()
}

/// Calls `char::is_lowercase` (Unicode `Lowercase` property). Claimed: the result is
/// `unicode_is_lowercase(c)`, and for ASCII it is exactly `'a'..='z'`.
#[verifier::external_body]
pub(crate) fn char_is_lowercase(c: char) -> (r: bool)
    ensures
        r == unicode_is_lowercase(c),
        (c as u32) >= 128 ==> r == lowercase_beyond_ascii(c),
{
    c.is_lowercase()
}

/// Calls `char::is_alphabetic` (Unicode `Alphabetic` property). Claimed: the result is
/// `unicode_is_alphabetic(c)`, and for ASCII it is exactly the ASCII letters.
#[verifier::external_body]
pub(crate) fn char_is_alphabetic(c: char) -> (r: bool)
    ensures
        r == unicode_is_alphabetic(c),
        (c as u32) >= 128 ==> r == alphabetic_beyond_ascii(c),
{
    c.is_alphabetic()
}

/// Calls `char::is_numeric` (general categories `Nd`, `Nl`, `No`). Claimed: the result is
/// `unicode_is_numeric(c)`, and for ASCII it is exactly `'0'..='9'`.
#[verifier::external_body]
pub(crate) fn char_is_numeric(c: char) -> (r: bool)
    ensures
        r == unicode_is_numeric(c),
        (c as u32) >= 128 ==> r == numeric_beyond_ascii(c),
{
    c.is_numeric()
}

/// Calls `char::is_alphanumeric`, which std documents as `is_alphabetic() || is_numeric()`.
#[verifier::external_body]
pub(crate) fn char_is_alphanumeric(c: char) -> (r: bool)
    ensures
        r == (unicode_is_alphabetic(c) || unicode_is_numeric(c)),
        (c as u32) >= 128 ==> r == (alphabetic_beyond_ascii(c) || numeric_beyond_ascii(c)),
{
    c.is_alphanumeric()
}

/// Calls `char::to_lowercase` and collects the characters it yields. Claimed: they are
/// `unicode_to_lowercase(c)`, and for an ASCII character the one character `c.to_ascii_lowercase()`.
#[verifier::external_body]
pub(crate) fn char_to_lowercase(c: char) -> (r: Vec<char>)
    ensures
        r@ == unicode_to_lowercase(c),
        (c as u32) >= 128 ==> r@ == lowercase_chars_beyond_ascii(c),
{
    c.to_lowercase().collect()
}

} // verus!
