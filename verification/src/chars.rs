//! Character classes that the scanner tests.

use vstd::prelude::*;

verus! {

/// Whether `c` carries the Unicode `White_Space` property, which is what
/// `char::is_whitespace` reports: U+0009 to U+000D, U+0020, U+0085, U+00A0,
/// U+1680, U+2000 to U+200A, U+2028, U+2029, U+202F, U+205F and U+3000.
pub open spec fn is_white_space(c: char) -> bool {
    ||| '\u{9}' <= c <= '\u{d}'
    ||| c == ' '
    ||| c == '\u{85}'
    ||| c == '\u{a0}'
    ||| c == '\u{1680}'
    ||| '\u{2000}' <= c <= '\u{200a}'
    ||| c == '\u{2028}'
    ||| c == '\u{2029}'
    ||| c == '\u{202f}'
    ||| c == '\u{205f}'
    ||| c == '\u{3000}'
}

/// Whether a character beyond ASCII carries the Unicode `Alphabetic`
/// property, which is what `char::is_alphabetic` reports for it.
pub uninterp spec fn is_non_ascii_alphabetic(c: char) -> bool;

/// Whether `c` carries the Unicode `Alphabetic` property: in ASCII exactly the
/// letters `a` to `z` and `A` to `Z`; beyond ASCII, `is_non_ascii_alphabetic`.
pub open spec fn is_alphabetic(c: char) -> bool {
    if c <= '\u{7f}' {
        ('a' <= c <= 'z') || ('A' <= c <= 'Z')
    } else {
        is_non_ascii_alphabetic(c)
    }
}

/// Calls `char::is_whitespace`. The contract claims that the answer is the
/// Unicode `White_Space` property, whose members `is_white_space` lists.
#[verifier::external_body]
pub(crate) fn char_is_whitespace(c: char) -> (r: bool)
    ensures
        r == is_white_space(c),
{
    c.is_whitespace()
}

/// Calls `char::is_alphabetic`. The contract claims that in ASCII the answer
/// is true exactly for the letters, and beyond ASCII it is the fixed Unicode
/// `Alphabetic` property of `c` (the name `is_non_ascii_alphabetic`); which
/// characters beyond ASCII carry it is the Unicode character database's, and
/// is not stated.
#[verifier::external_body]
pub(crate) fn char_is_alphabetic(c: char) -> (r: bool)
    ensures
        r == is_alphabetic(c),
        c > '\u{7f}' ==> r == is_non_ascii_alphabetic(c),
{
    c.is_alphabetic()
}

/// An ASCII decimal digit, `'0'` to `'9'`.
pub open spec fn is_ascii_digit(c: char) -> bool {
    '0' <= c && c <= '9'
}

/// A character that may begin an identifier.
pub open spec fn starts_identifier(c: char) -> bool {
    is_alphabetic(c) || c == '_'
}

/// A character that may continue an identifier.
pub open spec fn continues_identifier(c: char) -> bool {
    is_alphabetic(c) || is_ascii_digit(c) || c == '_'
}

/// Tests for an ASCII decimal digit, as `char::is_ascii_digit` does.
pub(crate) fn ascii_digit(c: char) -> (r: bool)
    ensures
        r == is_ascii_digit(c),
{
    '0' <= c && c <= '9'
}

/// Tests whether `c` may begin an identifier.
pub(crate) fn identifier_start(c: char) -> (r: bool)
    ensures
        r == starts_identifier(c),
{
    char_is_alphabetic(c) || c == '_'
}

/// Tests whether `c` may continue an identifier.
pub(crate) fn identifier_continue(c: char) -> (r: bool)
    ensures
        r == continues_identifier(c),
{
    char_is_alphabetic(c) || ascii_digit(c) || c == '_'
}

} // verus!
