//! The character classes the scanner decides by.

use vstd::prelude::*;

verus! {

/// Space, line feed, tab, carriage return and form feed.
#[verifier::allow_in_spec]
pub fn is_whitespace(c: char) -> bool
    returns
        c == ' ' || c == '\n' || c == '\t' || c == '\r' || c == '\x0c',
{
    c == ' ' || c == '\n' || c == '\t' || c == '\r' || c == '\x0c'
}

/// The single and the double quote.
#[verifier::allow_in_spec]
pub fn is_quote(c: char) -> bool
    returns
        c == '\'' || c == '"',
{
    c == '\'' || c == '"'
}

/// The characters that are a token by themselves wherever they stand:
/// `[ ] { } : ; )`.
#[verifier::allow_in_spec]
pub fn is_punctuation(c: char) -> bool
    returns
        c == '[' || c == ']' || c == '{' || c == '}' || c == ':' || c == ';' || c == ')',
{
    c == '[' || c == ']' || c == '{' || c == '}' || c == ':' || c == ';' || c == ')'
}

/// A digit of a hexadecimal number, in either case.
#[verifier::allow_in_spec]
pub fn is_hex_digit(c: char) -> bool
    returns
        ('0' <= c && c <= '9') || ('a' <= c && c <= 'f') || ('A' <= c && c <= 'F'),
{
    ('0' <= c && c <= '9') || ('a' <= c && c <= 'f') || ('A' <= c && c <= 'F')
}

/// The characters that end an at-word: whitespace, quotes, `#`, every
/// bracket, brace and parenthesis, `:`, `;` and `@`.
#[verifier::allow_in_spec]
pub fn is_at_word_delimiter(c: char) -> bool
    returns
        is_whitespace(c) || is_quote(c) || c == '#' || c == '(' || c == ')' || c == '[' || c == ']'
            || c == '{' || c == '}' || c == ':' || c == ';' || c == '@',
{
    is_whitespace(c) || is_quote(c) || c == '#' || c == '(' || c == ')' || c == '[' || c == ']'
        || c == '{' || c == '}' || c == ':' || c == ';' || c == '@'
}

/// The characters that end a word: whitespace, quotes, `!`, `#`, every
/// bracket, brace and parenthesis, `:`, `;`, `@` and the backslash.
#[verifier::allow_in_spec]
pub fn is_word_delimiter(c: char) -> bool
    returns
        is_whitespace(c) || is_quote(c) || c == '!' || c == '#' || c == '(' || c == ')' || c == ':'
            || c == ';' || c == '@' || c == '[' || c == '\\' || c == ']' || c == '{' || c == '}',
{
    is_whitespace(c) || is_quote(c) || c == '!' || c == '#' || c == '(' || c == ')' || c == ':'
        || c == ';' || c == '@' || c == '[' || c == '\\' || c == ']' || c == '{' || c == '}'
}

/// The characters that a parenthesised span taken whole may not hold after
/// its first character: line feed, quotes, `(`, `/` and the backslash.
#[verifier::allow_in_spec]
pub fn is_bad_in_brackets(c: char) -> bool
    returns
        c == '\n' || is_quote(c) || c == '(' || c == '/' || c == '\\',
{
    c == '\n' || is_quote(c) || c == '(' || c == '/' || c == '\\'
}

/// After `url(`, a quote or whitespace means the argument is not raw text.
#[verifier::allow_in_spec]
pub fn forbids_raw_argument(c: char) -> bool
    returns
        is_quote(c) || is_whitespace(c),
{
    is_quote(c) || is_whitespace(c)
}

/// After an odd run of backslashes, `/` and whitespace are left to the next
/// token; any other character belongs to the escape.
#[verifier::allow_in_spec]
pub fn ends_escape(c: char) -> bool
    returns
        c == '/' || is_whitespace(c),
{
    c == '/' || is_whitespace(c)
}

} // verus!
