//! Character classification shared by the tokenizer and the matcher.
//!
//! Four named sets of characters are used throughout the engine: the decimal
//! digits (the `\d` escape class), the word characters (the `\w` escape
//! class), the pattern alphabet (the characters a pattern may use as bare
//! literals, and the characters the `.` wildcard accepts), and the letters
//! that may follow a backslash to name an escape class.

use vstd::prelude::*;

verus! {

/// The decimal digits: matched by the `\d` escape class, and the characters
/// that form a backreference number after a backslash.
pub open spec fn is_numeric_character(c: char) -> bool {
    '0' <= c && c <= '9'
}

/// The word characters (letters, digits and underscore): matched by the `\w`
/// escape class.
pub open spec fn is_alphanumeric_character(c: char) -> bool {
    ||| is_numeric_character(c)
    ||| ('a' <= c && c <= 'z')
    ||| ('A' <= c && c <= 'Z')
    ||| c == '_'
}

/// The pattern alphabet: word characters, space and hyphen. A character of
/// this set stands for itself in a pattern, and the `.` wildcard matches
/// exactly the characters of this set (deliberately not every character).
pub open spec fn is_valid_character(c: char) -> bool {
    ||| is_alphanumeric_character(c)
    ||| c == ' '
    ||| c == '-'
}

/// The letters that name an escape class after a backslash (`\d`, `\w`).
/// A second backslash escapes the backslash itself; that case is handled by
/// the token kind, not by this set.
pub open spec fn is_valid_escape_character(c: char) -> bool {
    c == 'd' || c == 'w'
}

/// Membership test for the decimal digits.
pub fn is_numeric(c: char) -> (r: bool)
    ensures
        r == is_numeric_character(c),
{
    '0' <= c && c <= '9'
}

/// Membership test for the word characters.
pub fn is_alphanumeric(c: char) -> (r: bool)
    ensures
        r == is_alphanumeric_character(c),
{
    is_numeric(c) || ('a' <= c && c <= 'z') || ('A' <= c && c <= 'Z') || c == '_'
}

/// Membership test for the pattern alphabet.
pub fn is_valid(c: char) -> (r: bool)
    ensures
        r == is_valid_character(c),
{
    is_alphanumeric(c) || c == ' ' || c == '-'
}

/// Membership test for the escape-class letters.
pub fn is_valid_escape(c: char) -> (r: bool)
    ensures
        r == is_valid_escape_character(c),
{
    c == 'd' || c == 'w'
}

} // verus!
