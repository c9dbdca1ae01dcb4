//! The character classes of the dialect, each as a predicate for contracts and
//! as a function that computes it.

use vstd::prelude::*;

verus! {

/// The ten decimal digits.
pub open spec fn is_digit(c: char) -> bool {
    '0' <= c <= '9'
}

/// Space, tab, line feed, form feed and carriage return.
pub open spec fn is_whitespace(c: char) -> bool {
    c == ' ' || c == '\t' || c == '\n' || c == '\x0C' || c == '\r'
}

/// The ASCII letters of either case and the decimal digits.
pub open spec fn is_alphanumeric(c: char) -> bool {
    'a' <= c <= 'z' || 'A' <= c <= 'Z' || is_digit(c)
}

/// What may stand between the quotes of a string: any ASCII character but the
/// quote itself.
pub open spec fn is_string_char(c: char) -> bool {
    c <= '\x7F' && c != '"'
}

/// What may stand between the quotes of an object key: ASCII letters and
/// digits.
pub open spec fn is_key_char(c: char) -> bool {
    is_alphanumeric(c)
}

/// The number that a decimal digit stands for.
pub open spec fn digit_value(c: char) -> nat
    recommends
        is_digit(c),
{
    (c as u32 - '0' as u32) as nat
}

pub fn digit(c: char) -> (yes: bool)
    ensures
        yes == is_digit(c),
{
    '0' <= c && c <= '9'
}

pub fn whitespace(c: char) -> (yes: bool)
    ensures
        yes == is_whitespace(c),
{
    c == ' ' || c == '\t' || c == '\n' || c == '\x0C' || c == '\r'
}

pub fn string_char(c: char) -> (yes: bool)
    ensures
        yes == is_string_char(c),
{
    c <= '\x7F' && c != '"'
}

pub fn key_char(c: char) -> (yes: bool)
    ensures
        yes == is_key_char(c),
{
    ('a' <= c && c <= 'z') || ('A' <= c && c <= 'Z') || ('0' <= c && c <= '9')
}

} // verus!
