//! Classes of characters, and what is taken on trust of std's text functions.

use vstd::prelude::*;

verus! {

/// An ASCII decimal digit.
pub open spec fn is_digit(c: char) -> bool {
    '0' <= c && c <= '9'
}

/// An ASCII letter.
pub open spec fn is_letter(c: char) -> bool {
    ('a' <= c && c <= 'z') || ('A' <= c && c <= 'Z')
}

/// A character that may begin a word.
pub open spec fn starts_word(c: char) -> bool {
    is_letter(c) || c == '_'
}

/// A character that may stand inside a word.
pub open spec fn in_word(c: char) -> bool {
    is_letter(c) || is_digit(c) || c == '_'
}

/// Whether `char::is_whitespace` holds of `c`: whether Unicode gives the
/// character the property `White_Space`.
pub uninterp spec fn is_whitespace(c: char) -> bool;

/// `char::is_whitespace` of std. Its result depends on the character alone;
/// the contract gives it the name `is_whitespace` and says nothing of which
/// characters have the property.
pub assume_specification[ char::is_whitespace ](c: char) -> (r: bool)
    ensures
        r == is_whitespace(c),
;

/// A character that separates tokens: a line break or other white space.
pub open spec fn is_blank(c: char) -> bool {
    c == '\n' || is_whitespace(c)
}

/// Whether `c` is an ASCII decimal digit.
pub fn digit(c: char) -> (r: bool)
    ensures
        r == is_digit(c),
{
    c >= '0' && c <= '9'
}

/// Whether `c` is an ASCII letter.
pub fn letter(c: char) -> (r: bool)
    ensures
        r == is_letter(c),
{
    (c >= 'a' && c <= 'z') || (c >= 'A' && c <= 'Z')
}

/// Whether `c` may stand inside a word.
pub fn word_char(c: char) -> (r: bool)
    ensures
        r == in_word(c),
{
    letter(c) || digit(c) || c == '_'
}

/// Whether `c` separates tokens.
pub fn blank(c: char) -> (r: bool)
    ensures
        r == is_blank(c),
{
    c == '\n' || c.is_whitespace()
}

/// `String::push` of std: the character is appended to the text.
pub assume_specification[ String::push ](s: &mut String, c: char)
    ensures
        final(s)@ == old(s)@.push(c),
;

} // verus!
