//! The scans themselves: one function for each kind of token, each proved to
//! yield what [`crate::scan`] says.

use vstd::prelude::*;
use vstd::string::StringExecFns;
use crate::chars::{
    ends_escape, forbids_raw_argument, is_at_word_delimiter, is_bad_in_brackets, is_hex_digit,
    is_whitespace, is_word_delimiter,
};
use crate::input::Input;
use crate::scan::{
    at_word_at, comment_at, escape_at, has_bad_bracket_content, paren_at, piece, punctuation_at,
    space_at, string_at, word_at, Piece,
};
use crate::stop::{
    first_stop, is_escaped, lemma_backslash_run, lemma_first_stop, lemma_first_stop_unique, stops,
    Stop,
};
use crate::token::{Construct, Token};
use crate::tokenizer::{char_code_at, index_of_char, index_of_end_comment, sub_string};

verus! {

/// Walks back over the backslashes before offset `i` and says whether their
/// number is odd.
pub fn escaped(input: &Input, i: usize) -> (odd: bool)
    requires
        i <= input@.len(),
    ensures
        odd == is_escaped(input@, i as int),
{
    let mut at = i;
    let mut odd = false;
    while at > 0 && input.get(at - 1) == '\\'
        invariant
            at <= i <= input@.len(),
            forall|j: int| at <= j < i ==> input@[j] == '\\',
            odd == ((i - at) % 2 == 1),
        decreases at,
    {
        at -= 1;
        odd = !odd;
    }
    proof {
        lemma_backslash_run(input@, at as int, i as int);
    }
    odd
}

/// Whether `stop` holds at offset `i`.
pub fn stops_at(input: &Input, stop: Stop, i: usize) -> (holds: bool)
    requires
        i < input@.len(),
    ensures
        holds == stops(stop, input@, i as int),
{
    proof {
        input.lemma_len_fits();
    }
    let c = input.get(i);
    match stop {
        Stop::NotSpace => !is_whitespace(c),
        Stop::Char(wanted) => c == wanted,
        Stop::Unescaped(wanted) => c == wanted && !escaped(input, i),
        Stop::CommentClose => c == '*' && char_code_at(input, i + 1) == '/',
        Stop::AtWordEnd => is_at_word_delimiter(c) || (c == '/' && char_code_at(input, i + 1)
            == '*'),
        Stop::WordEnd => is_word_delimiter(c) || (c == '/' && char_code_at(input, i + 1) == '*'),
        Stop::NotHex => !is_hex_digit(c),
        Stop::NotBackslash => c != '\\',
    }
}

/// The first offset at or after `from` at which `stop` holds, or the length
/// of the text.
pub fn find_stop(input: &Input, stop: Stop, from: usize) -> (at: usize)
    requires
        from <= input@.len(),
    ensures
        at == first_stop(stop, input@, from as int),
        from <= at <= input@.len(),
{
    let len = input.len();
    let mut at = from;
    match stop {
        Stop::Char(wanted) => {
            at = match index_of_char(input, wanted, from) {
                Some(i) => i,
                None => len,
            };
        },
        Stop::CommentClose => {
            at = match index_of_end_comment(input, from) {
                Some(i) => i,
                None => len,
            };
        },
        Stop::Unescaped(wanted) => {
            loop
                invariant_except_break
                    from <= at <= len == input@.len(),
                    forall|j: int| from <= j < at ==> !stops(stop, input@, j),
                    stop == Stop::Unescaped(wanted),
                ensures
                    from <= at <= len == input@.len(),
                    forall|j: int| from <= j < at ==> !stops(stop, input@, j),
                    at < len ==> stops(stop, input@, at as int),
                decreases len - at,
            {
                match index_of_char(input, wanted, at) {
                    Some(i) => {
                        if !escaped(input, i) {
                            at = i;
                            break ;
                        }
                        at = i + 1;
                    },
                    None => {
                        at = len;
                        break ;
                    },
                }
            }
        },
        _ => {
            while at < len && !stops_at(input, stop, at)
                invariant
                    from <= at <= len == input@.len(),
                    forall|j: int| from <= j < at ==> !stops(stop, input@, j),
                decreases len - at,
            {
                at += 1;
            }
        },
    }
    proof {
        lemma_first_stop_unique(stop, input@, from as int, at as int);
    }
    at
}

/// `scanned` is `piece`: the token says the same and the offsets agree.
pub open spec fn yields(scanned: (Token, usize), piece: Piece) -> bool {
    scanned.0@ == piece.token && scanned.1 == piece.next
}

/// The same for a scan that may fail.
pub open spec fn yields_or(
    scanned: Result<(Token, usize), Construct>,
    piece: Result<Piece, Construct>,
) -> bool {
    match scanned {
        Ok(scanned) => piece is Ok && yields(scanned, piece->Ok_0),
        Err(construct) => piece == Err::<Piece, Construct>(construct),
    }
}

/// The token of kind `kind` that covers `[pos, next)`.
fn cut(kind: &str, input: &Input, pos: usize, next: usize) -> (scanned: (Token, usize))
    requires
        pos < next <= input@.len(),
    ensures
        yields(scanned, piece(kind@, input@, pos as int, next as int)),
{
    let content = sub_string(input, pos, next);
    (Token(String::from_str(kind), content, Some(pos), Some(next - 1)), next)
}

/// The character at `pos` as a token by itself.
fn cut_one(input: &Input, pos: usize) -> (scanned: (Token, usize))
    requires
        pos < input@.len(),
    ensures
        yields(scanned, punctuation_at(input@, pos as int)),
{
    proof {
        input.lemma_len_fits();
    }
    let kind = sub_string(input, pos, pos + 1);
    let content = sub_string(input, pos, pos + 1);
    (Token(kind, content, Some(pos), None), pos + 1)
}

/// Scans the run of whitespace that starts at `pos`.
pub fn scan_space(input: &Input, pos: usize) -> (scanned: (Token, usize))
    requires
        pos < input@.len(),
    ensures
        yields(scanned, space_at(input@, pos as int)),
{
    proof {
        input.lemma_len_fits();
    }
    let next = find_stop(input, Stop::NotSpace, pos + 1);
    let content = sub_string(input, pos, next);
    (Token(String::from_str("space"), content, None, None), next)
}

/// Scans the one character at `pos`.
pub fn scan_punctuation(input: &Input, pos: usize) -> (scanned: (Token, usize))
    requires
        pos < input@.len(),
    ensures
        yields(scanned, punctuation_at(input@, pos as int)),
{
    cut_one(input, pos)
}

/// Whether a character that [`is_bad_in_brackets`] stands in `(pos, close]`.
fn bad_bracket_content(input: &Input, pos: usize, close: usize) -> (bad: bool)
    requires
        pos < close < input@.len(),
    ensures
        bad == has_bad_bracket_content(input@.subrange(pos as int, close + 1)),
{
    let len = input.len();
    let ghost content = input@.subrange(pos as int, close + 1);
    let mut i = pos + 1;
    while i <= close
        invariant
            pos < i <= close + 1 <= len == input@.len(),
            content == input@.subrange(pos as int, close + 1),
            forall|j: int| 1 <= j < i - pos ==> !is_bad_in_brackets(#[trigger] content[j]),
        decreases close + 1 - i,
    {
        if is_bad_in_brackets(input.get(i)) {
            assert(is_bad_in_brackets(content[i - pos]));
            return true;
        }
        i += 1;
    }
    false
}

/// Scans from the `(` at `pos`. `after_url` says that the word remembered is
/// `url`.
pub fn scan_paren(input: &Input, pos: usize, after_url: bool, lenient: bool) -> (scanned:
    Result<(Token, usize), Construct>)
    requires
        pos < input@.len(),
    ensures
        yields_or(scanned, paren_at(input@, pos as int, after_url, lenient)),
{
    let len = input.len();
    if after_url && !forbids_raw_argument(char_code_at(input, pos + 1)) {
        let close = find_stop(input, Stop::Unescaped(')'), pos + 1);
        if close < len {
            Ok(cut("brackets", input, pos, close + 1))
        } else if lenient {
            Ok(cut("brackets", input, pos, pos + 1))
        } else {
            Err(Construct::Bracket)
        }
    } else {
        let close = find_stop(input, Stop::Char(')'), pos + 1);
        if close < len && !bad_bracket_content(input, pos, close) {
            Ok(cut("brackets", input, pos, close + 1))
        } else {
            Ok(cut_one(input, pos))
        }
    }
}

/// Scans the string that the quote at `pos` opens.
pub fn scan_string(input: &Input, pos: usize, lenient: bool) -> (scanned: Result<
    (Token, usize),
    Construct,
>)
    requires
        pos < input@.len(),
    ensures
        yields_or(scanned, string_at(input@, pos as int, lenient)),
{
    let len = input.len();
    let close = find_stop(input, Stop::Unescaped(input.get(pos)), pos + 1);
    if close < len {
        Ok(cut("string", input, pos, close + 1))
    } else if lenient {
        let next = if pos + 1 < len {
            pos + 2
        } else {
            len
        };
        Ok(cut("string", input, pos, next))
    } else {
        Err(Construct::String)
    }
}

/// Scans the at-word that the `@` at `pos` opens.
pub fn scan_at_word(input: &Input, pos: usize) -> (scanned: (Token, usize))
    requires
        pos < input@.len(),
    ensures
        yields(scanned, at_word_at(input@, pos as int)),
{
    proof {
        input.lemma_len_fits();
    }
    let next = find_stop(input, Stop::AtWordEnd, pos + 1);
    cut("at-word", input, pos, next)
}

/// Scans from the backslash at `pos`.
pub fn scan_escape(input: &Input, pos: usize) -> (scanned: (Token, usize))
    requires
        pos < input@.len(),
    ensures
        yields(scanned, escape_at(input@, pos as int)),
{
    let len = input.len();
    let after = find_stop(input, Stop::NotBackslash, pos + 1);
    let escaped = char_code_at(input, after);
    if (after - pos) % 2 == 1 && !ends_escape(escaped) {
        if is_hex_digit(escaped) {
            let digits_end = find_stop(input, Stop::NotHex, after + 1);
            let next = if char_code_at(input, digits_end) == ' ' {
                digits_end + 1
            } else {
                digits_end
            };
            cut("word", input, pos, next)
        } else {
            let next = if after < len {
                after + 1
            } else {
                len
            };
            cut("word", input, pos, next)
        }
    } else {
        cut("word", input, pos, after)
    }
}

/// Scans the comment that the `/*` at `pos` opens.
pub fn scan_comment(input: &Input, pos: usize, lenient: bool) -> (scanned: Result<
    (Token, usize),
    Construct,
>)
    requires
        pos + 1 < input@.len(),
    ensures
        yields_or(scanned, comment_at(input@, pos as int, lenient)),
{
    let len = input.len();
    let close = find_stop(input, Stop::CommentClose, pos + 2);
    if close < len {
        proof {
            lemma_first_stop(Stop::CommentClose, input@, pos + 2);
        }
        Ok(cut("comment", input, pos, close + 2))
    } else if lenient {
        Ok(cut("comment", input, pos, len))
    } else {
        Err(Construct::Comment)
    }
}

/// Scans the word that starts at `pos`.
pub fn scan_word(input: &Input, pos: usize) -> (scanned: (Token, usize))
    requires
        pos < input@.len(),
    ensures
        yields(scanned, word_at(input@, pos as int)),
{
    let len = input.len();
    let stop = find_stop(input, Stop::WordEnd, pos + 1);
    let next = if stop < len && is_word_delimiter(input.get(stop)) && input.get(stop - 1) == '/'
        && pos < stop - 1 {
        stop - 1
    } else {
        stop
    };
    cut("word", input, pos, next)
}

} // verus!
