//! Character classes of the language's lexical grammar.

use vstd::prelude::*;

verus! {

/// The blanks that separate tokens: space, carriage return and line feed.
pub open spec fn spec_is_whitespace(ch: char) -> bool {
    ch == ' ' || ch == '\r' || ch == '\n'
}

/// The characters that may start an identifier: an ASCII letter or an underscore.
pub open spec fn spec_is_valid_identifier_first(ch: char) -> bool {
    ('A' <= ch && ch <= 'Z') || ('a' <= ch && ch <= 'z') || ch == '_'
}

/// The characters that may continue an identifier: an ASCII letter, an ASCII
/// digit or an underscore.
pub open spec fn spec_is_valid_in_identifier(ch: char) -> bool {
    spec_is_decimal_digit(ch) || spec_is_valid_identifier_first(ch)
}

/// The ASCII decimal digits.
pub open spec fn spec_is_decimal_digit(ch: char) -> bool {
    '0' <= ch && ch <= '9'
}

/// The blanks, as a set of characters.
pub open spec fn whitespace_class() -> spec_fn(char) -> bool {
    |c: char| spec_is_whitespace(c)
}

/// The decimal digits, as a set of characters.
pub open spec fn digit_class() -> spec_fn(char) -> bool {
    |c: char| spec_is_decimal_digit(c)
}

/// The characters that may continue an identifier, as a set of characters.
pub open spec fn identifier_class() -> spec_fn(char) -> bool {
    |c: char| spec_is_valid_in_identifier(c)
}

#[verifier::when_used_as_spec(spec_is_whitespace)]
pub fn is_whitespace(ch: char) -> (b: bool)
    ensures
        b == spec_is_whitespace(ch),
{
    ch == ' ' || ch == '\r' || ch == '\n'
}

#[verifier::when_used_as_spec(spec_is_valid_identifier_first)]
pub fn is_valid_identifier_first(ch: char) -> (b: bool)
    ensures
        b == spec_is_valid_identifier_first(ch),
{
    ('A' <= ch && ch <= 'Z') || ('a' <= ch && ch <= 'z') || ch == '_'
}

#[verifier::when_used_as_spec(spec_is_valid_in_identifier)]
pub fn is_valid_in_identifier(ch: char) -> (b: bool)
    ensures
        b == spec_is_valid_in_identifier(ch),
{
    ('0' <= ch && ch <= '9') || is_valid_identifier_first(ch)
}

#[verifier::when_used_as_spec(spec_is_decimal_digit)]
pub fn is_decimal_digit(ch: char) -> (b: bool)
    ensures
        b == spec_is_decimal_digit(ch),
{
    '0' <= ch && ch <= '9'
}

} // verus!
