//! What one scan yields, as a function of the text, the offset it starts at
//! and the word remembered from before.

use vstd::prelude::*;
use vstd::math::min;
use crate::chars::{
    ends_escape, forbids_raw_argument, is_bad_in_brackets, is_hex_digit, is_punctuation, is_quote,
    is_whitespace, is_word_delimiter,
};
use crate::input::char_at;
use crate::stop::{first_stop, lemma_first_stop, opens_comment, Stop};
use crate::token::{Construct, TokenView, UnclosedConstruct};

verus! {

/// A token and the offset of the first character after it.
pub struct Piece {
    pub token: TokenView,
    pub next: int,
}

/// A [`Piece`], and the word remembered once it has been scanned.
pub struct Scanned {
    pub token: TokenView,
    pub next: int,
    pub last_word: Option<Seq<char>>,
}

/// The token of the given kind that covers `[pos, next)`. It carries the
/// offsets of its first and of its last character.
pub open spec fn piece(kind: Seq<char>, text: Seq<char>, pos: int, next: int) -> Piece {
    Piece {
        token: TokenView {
            kind,
            content: text.subrange(pos, next),
            start: Some(pos),
            end: Some(next - 1),
        },
        next,
    }
}

/// A run of whitespace, taken whole. It carries no offsets.
pub open spec fn space_at(text: Seq<char>, pos: int) -> Piece {
    let next = first_stop(Stop::NotSpace, text, pos + 1);
    Piece {
        token: TokenView {
            kind: "space"@,
            content: text.subrange(pos, next),
            start: None,
            end: None,
        },
        next,
    }
}

/// One character that is its own kind. It carries its offset as start and
/// no end.
pub open spec fn punctuation_at(text: Seq<char>, pos: int) -> Piece {
    Piece {
        token: TokenView {
            kind: text.subrange(pos, pos + 1),
            content: text.subrange(pos, pos + 1),
            start: Some(pos),
            end: None,
        },
        next: pos + 1,
    }
}

/// The parenthesised text is not taken whole: after its first character
/// stands one that [`is_bad_in_brackets`].
pub open spec fn has_bad_bracket_content(content: Seq<char>) -> bool {
    exists|i: int| 1 <= i < content.len() && is_bad_in_brackets(#[trigger] content[i])
}

/// `(` at `pos`. `after_url` says that the word remembered is `url`.
///
/// After that word, and unless a quote or whitespace follows, the text
/// up to the first `)` that is not escaped is one `brackets` token. Where no
/// such `)` comes, the token is the `(` alone if `lenient`, and the scan
/// fails if not.
///
/// Elsewhere the text up to the first `)` is one `brackets` token unless it
/// [`has_bad_bracket_content`]; then, and where no `)` comes, the `(` is a
/// token by itself.
pub open spec fn paren_at(
    text: Seq<char>,
    pos: int,
    after_url: bool,
    lenient: bool,
) -> Result<Piece, Construct> {
    if after_url && !forbids_raw_argument(char_at(text, pos + 1)) {
        let close = first_stop(Stop::Unescaped(')'), text, pos + 1);
        if close < text.len() {
            Ok(piece("brackets"@, text, pos, close + 1))
        } else if lenient {
            Ok(piece("brackets"@, text, pos, pos + 1))
        } else {
            Err(Construct::Bracket)
        }
    } else {
        let close = first_stop(Stop::Char(')'), text, pos + 1);
        if close < text.len() && !has_bad_bracket_content(text.subrange(pos, close + 1)) {
            Ok(piece("brackets"@, text, pos, close + 1))
        } else {
            Ok(punctuation_at(text, pos))
        }
    }
}

/// A quote at `pos`: the text up to the first quote of the same kind that is
/// not escaped. Where none comes, the token is the quote and the character
/// after it if `lenient`, and the scan fails if not.
pub open spec fn string_at(text: Seq<char>, pos: int, lenient: bool) -> Result<Piece, Construct> {
    let close = first_stop(Stop::Unescaped(text[pos]), text, pos + 1);
    if close < text.len() {
        Ok(piece("string"@, text, pos, close + 1))
    } else if lenient {
        Ok(piece("string"@, text, pos, min(pos + 2, text.len() as int)))
    } else {
        Err(Construct::String)
    }
}

/// `@` at `pos`: the text up to the first delimiter of an at-word, or to the
/// end.
pub open spec fn at_word_at(text: Seq<char>, pos: int) -> Piece {
    let next = first_stop(Stop::AtWordEnd, text, pos + 1);
    piece("at-word"@, text, pos, next)
}

/// A backslash at `pos`: the run of backslashes that starts there and, where
/// the run is odd and the character after it does not [`ends_escape`], that
/// character too; where it is a hexadecimal digit, the digits that follow it
/// and one space after them as well.
pub open spec fn escape_at(text: Seq<char>, pos: int) -> Piece {
    let after = first_stop(Stop::NotBackslash, text, pos + 1);
    let escaped = char_at(text, after);
    if (after - pos) % 2 == 1 && !ends_escape(escaped) {
        if is_hex_digit(escaped) {
            let digits_end = first_stop(Stop::NotHex, text, after + 1);
            let next = if char_at(text, digits_end) == ' ' {
                digits_end + 1
            } else {
                digits_end
            };
            piece("word"@, text, pos, next)
        } else {
            piece("word"@, text, pos, min(after + 1, text.len() as int))
        }
    } else {
        piece("word"@, text, pos, after)
    }
}

/// `/*` at `pos`: the text up to and with the first `*/` after it. Where
/// none comes, the token is the rest of the text if `lenient`, and the scan
/// fails if not.
pub open spec fn comment_at(text: Seq<char>, pos: int, lenient: bool) -> Result<Piece, Construct> {
    let close = first_stop(Stop::CommentClose, text, pos + 2);
    if close < text.len() {
        Ok(piece("comment"@, text, pos, close + 2))
    } else if lenient {
        Ok(piece("comment"@, text, pos, text.len() as int))
    } else {
        Err(Construct::Comment)
    }
}

/// Where the word that starts at `pos` ends: before the first delimiter of a
/// word after `pos`, or at the end of the text. A `/` directly before a
/// delimiting character is left out of the word, unless the word would then
/// be empty.
pub open spec fn word_end(text: Seq<char>, pos: int) -> int {
    let stop = first_stop(Stop::WordEnd, text, pos + 1);
    if stop < text.len() && is_word_delimiter(text[stop]) && text[stop - 1] == '/' && pos < stop
        - 1 {
        stop - 1
    } else {
        stop
    }
}

/// Any other character at `pos`: a word.
pub open spec fn word_at(text: Seq<char>, pos: int) -> Piece {
    let next = word_end(text, pos);
    piece("word"@, text, pos, next)
}

/// The kinds of token there are: six that are named, and one for each
/// character that is a token by itself.
pub open spec fn is_token_kind(kind: Seq<char>) -> bool {
    ||| kind == "space"@
    ||| kind == "word"@
    ||| kind == "string"@
    ||| kind == "comment"@
    ||| kind == "at-word"@
    ||| kind == "brackets"@
    ||| kind.len() == 1 && (is_punctuation(kind[0]) || kind[0] == '(')
}

/// `piece`, with the word remembered after it.
pub open spec fn scanned(piece: Piece, last_word: Option<Seq<char>>) -> Scanned {
    Scanned { token: piece.token, next: piece.next, last_word }
}

/// The same for a scan that may fail: the failure says which construct is
/// left open, and that it was opened at `pos`.
pub open spec fn scanned_or(
    piece: Result<Piece, Construct>,
    last_word: Option<Seq<char>>,
    pos: int,
) -> Result<Scanned, UnclosedConstruct> {
    match piece {
        Ok(piece) => Ok(scanned(piece, last_word)),
        Err(construct) => Err(UnclosedConstruct { construct, position: pos as usize }),
    }
}

/// The token that starts at `pos`, by the character that stands there.
///
/// `last_word` is the content of the last word scanned, unless a `(` has
/// been scanned since. `lenient` says that a construct left open yields a
/// token and no failure.
pub open spec fn scan(
    text: Seq<char>,
    pos: int,
    last_word: Option<Seq<char>>,
    lenient: bool,
) -> Result<Scanned, UnclosedConstruct>
    recommends
        0 <= pos < text.len(),
{
    let c = text[pos];
    if is_whitespace(c) {
        Ok(scanned(space_at(text, pos), last_word))
    } else if is_punctuation(c) {
        Ok(scanned(punctuation_at(text, pos), last_word))
    } else if c == '(' {
        scanned_or(paren_at(text, pos, last_word == Some("url"@), lenient), None, pos)
    } else if is_quote(c) {
        scanned_or(string_at(text, pos, lenient), last_word, pos)
    } else if c == '@' {
        Ok(scanned(at_word_at(text, pos), last_word))
    } else if c == '\\' {
        Ok(scanned(escape_at(text, pos), last_word))
    } else if opens_comment(text, pos) {
        scanned_or(comment_at(text, pos, lenient), last_word, pos)
    } else {
        let word = word_at(text, pos);
        Ok(scanned(word, Some(word.token.content)))
    }
}

/// A scan that yields a token moves forward, stays inside the text, and
/// the token's content is the text it moved over. A lenient scan does not
/// fail.
pub proof fn lemma_scan_advances(
    text: Seq<char>,
    pos: int,
    last_word: Option<Seq<char>>,
    lenient: bool,
)
    requires
        0 <= pos < text.len(),
    ensures
        match scan(text, pos, last_word, lenient) {
            Ok(scanned) => pos < scanned.next <= text.len() && scanned.token.content
                == text.subrange(pos, scanned.next),
            Err(_) => !lenient,
        },
{
    lemma_first_stop(Stop::NotSpace, text, pos + 1);
    lemma_first_stop(Stop::Unescaped(')'), text, pos + 1);
    lemma_first_stop(Stop::Char(')'), text, pos + 1);
    lemma_first_stop(Stop::Unescaped(text[pos]), text, pos + 1);
    lemma_first_stop(Stop::AtWordEnd, text, pos + 1);
    lemma_first_stop(Stop::NotBackslash, text, pos + 1);
    lemma_first_stop(Stop::WordEnd, text, pos + 1);
    if opens_comment(text, pos) {
        lemma_first_stop(Stop::CommentClose, text, pos + 2);
    }
    let after = first_stop(Stop::NotBackslash, text, pos + 1);
    if after < text.len() {
        lemma_first_stop(Stop::NotHex, text, after + 1);
    }
}

} // verus!
