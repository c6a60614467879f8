//! The scanner, and the searches in a text that it is built on.

use vstd::prelude::*;
use vstd::math::min;
use vstd::slice::slice_subrange;
use crate::input::{ascii_code, char_at, lemma_ascii_code_tells, Input};
use crate::trusted::occurs_at;
use crate::chars::{is_punctuation, is_quote, is_whitespace};
use crate::scan::{lemma_scan_advances, scan};
use crate::scanner::{
    scan_at_word, scan_comment, scan_escape, scan_paren, scan_punctuation, scan_space, scan_string,
    scan_word,
};
use crate::stop::closes_comment;
use crate::token::{Construct, Token, TokenView, UnclosedConstruct};

verus! {

/// The character at offset `n` of `s`, or NUL where `s` has none there.
pub fn char_code_at(s: &Input, n: usize) -> (c: char)
    ensures
        c == char_at(s@, n as int),
{
    if n >= s.len() {
        '\0'
    } else {
        s.get(n)
    }
}

/// The characters of `s` from offset `start` up to, not with, offset `end`;
/// up to the end of `s` where `end` lies beyond it.
pub fn sub_string(s: &Input, start: usize, end: usize) -> (part: String)
    requires
        start <= end,
        start <= s@.len(),
    ensures
        part@ == s@.subrange(start as int, min(end as int, s@.len() as int)),
{
    let stop = if end <= s.len() {
        end
    } else {
        s.len()
    };
    let mut part = String::new();
    let mut i = start;
    while i < stop
        invariant
            start <= i <= stop <= s@.len(),
            part@ == s@.subrange(start as int, i as int),
        decreases stop - i,
    {
        part.push(s.get(i));
        i += 1;
    }
    part
}

/// The first offset at or after `from_index` at which `search_value` stands
/// in `value`.
pub fn index_of_char(value: &Input, search_value: char, from_index: usize) -> (found: Option<
    usize,
>)
    ensures
        match found {
            Some(i) => from_index <= i < value@.len() && value@[i as int] == search_value
                && forall|j: int| from_index <= j < i ==> value@[j] != search_value,
            None => forall|j: int| from_index <= j < value@.len() ==> value@[j] != search_value,
        },
{
    let len = value.len();
    if from_index > len {
        return None;
    }
    let code = ascii_code(search_value);
    if code < 0x80 {
        let bytes = value.codes();
        let rest = slice_subrange(bytes, from_index, len);
        assert forall|j: int| 0 <= j < rest@.len() implies (rest@[j] == code) == (value@[from_index
            + j] == search_value) by {
            assert(rest@[j] == ascii_code(value@[from_index + j]));
            lemma_ascii_code_tells(search_value, value@[from_index + j]);
        }
        match memchr::memchr(code, rest) {
            Some(i) => {
                assert forall|j: int| from_index <= j < from_index + i implies value@[j]
                    != search_value by {
                    assert(rest@[j - from_index] != code);
                }
                Some(from_index + i)
            },
            None => {
                assert forall|j: int| from_index <= j < value@.len() implies value@[j]
                    != search_value by {
                    assert(rest@[j - from_index] != code);
                }
                None
            },
        }
    } else {
        let mut i = from_index;
        while i < len
            invariant
                from_index <= i <= len == value@.len(),
                forall|j: int| from_index <= j < i ==> value@[j] != search_value,
            decreases len - i,
        {
            if value.get(i) == search_value {
                return Some(i);
            }
            i += 1;
        }
        None
    }
}

/// The first offset at or after `from_index` at which `*/` stands in
/// `value`.
pub fn index_of_end_comment(value: &Input, from_index: usize) -> (found: Option<usize>)
    ensures
        match found {
            Some(i) => from_index <= i < value@.len() && closes_comment(value@, i as int)
                && forall|j: int| from_index <= j < i ==> !closes_comment(value@, j),
            None => forall|j: int| from_index <= j < value@.len() ==> !closes_comment(value@, j),
        },
{
    let len = value.len();
    if from_index > len {
        return None;
    }
    let bytes = value.codes();
    let rest = slice_subrange(bytes, from_index, len);
    let needle: Vec<u8> = vec![ascii_code('*'), ascii_code('/')];
    assert forall|j: int| occurs_at(rest@, needle@, j) == (0 <= j && closes_comment(
        value@,
        from_index + j,
    )) by {
        if 0 <= j && j + 2 <= rest@.len() {
            let window = rest@.subrange(j, j + 2);
            assert(window[0] == ascii_code(value@[from_index + j]));
            assert(window[1] == ascii_code(value@[from_index + j + 1]));
            if closes_comment(value@, from_index + j) {
                assert(window =~= needle@);
            }
        }
    }
    match memchr::memmem::find(rest, needle.as_slice()) {
        Some(i) => {
            assert forall|j: int| from_index <= j < from_index + i implies !closes_comment(
                value@,
                j,
            ) by {
                assert(!occurs_at(rest@, needle@, j - from_index));
            }
            Some(from_index + i)
        },
        None => {
            assert forall|j: int| from_index <= j < value@.len() implies !closes_comment(
                value@,
                j,
            ) by {
                assert(!occurs_at(rest@, needle@, j - from_index));
            }
            None
        },
    }
}

/// Whether the characters in `[from, to)` spell `url`.
fn is_url(input: &Input, from: usize, to: usize) -> (same: bool)
    requires
        from <= to <= input@.len(),
    ensures
        same == (input@.subrange(from as int, to as int) == "url"@),
{
    proof {
        reveal_strlit("url");
    }
    let ghost word = input@.subrange(from as int, to as int);
    if to - from == 3 && input.get(from) == 'u' && input.get(from + 1) == 'r' && input.get(from + 2)
        == 'l' {
        assert(word =~= "url"@);
        true
    } else {
        assert(word.len() == 3 ==> word[0] == input@[from as int] && word[1] == input@[from + 1]
            && word[2] == input@[from + 2]);
        false
    }
}

/// Where a scanner stands in its text, and the word it remembers.
#[derive(Debug)]
struct Cursor<'a> {
    input: &'a Input,
    pos: usize,
    /// The last word scanned, as the offsets of its first character and of
    /// the first after it; `None` before the first word and once a `(` has
    /// been scanned after it.
    word: Option<(usize, usize)>,
}

impl<'a> Cursor<'a> {
    #[verifier::type_invariant]
    spec fn well_formed(&self) -> bool {
        &&& self.pos <= self.input@.len()
        &&& self.word matches Some((from, to)) ==> from <= to <= self.input@.len()
    }

    spec fn last_word(&self) -> Option<Seq<char>> {
        match self.word {
            Some((from, to)) => Some(self.input@.subrange(from as int, to as int)),
            None => None,
        }
    }
}

/// A scanner over one text. It hands out the text's tokens one by one, and
/// takes tokens back to hand them out again.
#[derive(Debug)]
pub struct Tokenizer<'a> {
    cursor: Cursor<'a>,
    ignore: bool,
    returned: Vec<Token>,
}

/// What a [`Tokenizer`] is at a given moment.
pub struct TokenizerView {
    /// The text.
    pub text: Seq<char>,
    /// Whether a construct left open yields a token in every call.
    pub lenient: bool,
    /// The offset of the next character to be scanned.
    pub position: nat,
    /// The content of the last word scanned, unless a `(` has been scanned
    /// since.
    pub last_word: Option<Seq<char>>,
    /// The tokens taken back and not handed out again yet; the last one is
    /// handed out first.
    pub pending: Seq<TokenView>,
}

/// What a call of [`Tokenizer::next_token`] returns, as plain values.
pub open spec fn result_view(result: Result<Token, UnclosedConstruct>) -> Result<
    TokenView,
    UnclosedConstruct,
> {
    match result {
        Ok(token) => Ok(token@),
        Err(unclosed) => Err(unclosed),
    }
}

impl TokenizerView {
    /// Nothing is pending and the whole text has been scanned.
    pub open spec fn end_of_file(self) -> bool {
        self.pending.len() == 0 && self.position >= self.text.len()
    }

    /// The scanner once `token` has been taken back.
    pub open spec fn back(self, token: TokenView) -> TokenizerView {
        TokenizerView { pending: self.pending.push(token), ..self }
    }

    /// What the next call returns, and the scanner after it.
    ///
    /// A pending token is handed out as it is, and nothing else changes.
    /// With none pending the text is scanned from `position`; a scan that
    /// fails changes nothing.
    pub open spec fn next_token(self, ignore_unclosed: bool) -> (
        Result<TokenView, UnclosedConstruct>,
        TokenizerView,
    ) {
        if self.pending.len() > 0 {
            (Ok(self.pending.last()), TokenizerView { pending: self.pending.drop_last(), ..self })
        } else {
            match scan(
                self.text,
                self.position as int,
                self.last_word,
                self.lenient || ignore_unclosed,
            ) {
                Ok(scanned) => (
                    Ok(scanned.token),
                    TokenizerView {
                        position: scanned.next as nat,
                        last_word: scanned.last_word,
                        ..self
                    },
                ),
                Err(unclosed) => (Err(unclosed), self),
            }
        }
    }
}

impl<'a> View for Tokenizer<'a> {
    type V = TokenizerView;

    closed spec fn view(&self) -> TokenizerView {
        TokenizerView {
            text: self.cursor.input@,
            lenient: self.ignore,
            position: self.cursor.pos as nat,
            last_word: self.cursor.last_word(),
            pending: self.returned@.map_values(|token: Token| token@),
        }
    }
}

impl<'a> Tokenizer<'a> {
    /// A scanner at the start of `input`. With `ignore_errors` a construct
    /// left open never fails a scan.
    pub fn new(input: &'a Input, ignore_errors: bool) -> (tokenizer: Tokenizer<'a>)
        ensures
            tokenizer@ == (TokenizerView {
                text: input@,
                lenient: ignore_errors,
                position: 0,
                last_word: None,
                pending: Seq::empty(),
            }),
    {
        let tokenizer = Tokenizer {
            cursor: Cursor { input, pos: 0, word: None },
            ignore: ignore_errors,
            returned: Vec::new(),
        };
        assert(tokenizer@.pending =~= Seq::empty());
        tokenizer
    }

    /// The offset of the next character to be scanned; the length of the
    /// text once all of it is scanned.
    pub fn position(&self) -> (pos: usize)
        ensures
            pos == self@.position,
            pos <= self@.text.len(),
    {
        proof {
            use_type_invariant(&self.cursor);
        }
        self.cursor.pos
    }

    /// The failure to report for a construct of kind `what` that was opened
    /// where the scanner stands and is never closed.
    pub fn unclosed(&self, what: Construct) -> (failure: UnclosedConstruct)
        ensures
            failure == (UnclosedConstruct { construct: what, position: self@.position as usize }),
    {
        UnclosedConstruct { construct: what, position: self.cursor.pos }
    }

    /// Whether no token is left: none is pending and the text is scanned to
    /// its end.
    pub fn end_of_file(&self) -> (done: bool)
        ensures
            done == self@.end_of_file(),
    {
        self.returned.len() == 0 && self.cursor.pos >= self.cursor.input.len()
    }

    /// Takes `token` back: the next call of [`Tokenizer::next_token`]
    /// returns it.
    pub fn back(&mut self, token: Token)
        ensures
            final(self)@ == old(self)@.back(token@),
    {
        self.returned.push(token);
        assert(self@.pending =~= old(self)@.pending.push(token@));
    }

    /// The next token: the one taken back last, or else the one that starts
    /// where the scanner stands.
    ///
    /// A string, a comment or a raw parenthesised argument that the text
    /// ends inside fails the call, unless the scanner was made to ignore
    /// errors or `ignore_unclosed` is set; then what is there becomes a
    /// token. A call that fails leaves the scanner as it was.
    pub fn next_token(&mut self, ignore_unclosed: bool) -> (result: Result<
        Token,
        UnclosedConstruct,
    >)
        requires
            !old(self)@.end_of_file(),
        ensures
            result_view(result) == old(self)@.next_token(ignore_unclosed).0,
            final(self)@ == old(self)@.next_token(ignore_unclosed).1,
            old(self)@.lenient || ignore_unclosed ==> result is Ok,
    {
        if self.returned.len() > 0 {
            let token = self.returned.pop().unwrap();
            assert(self@.pending =~= old(self)@.pending.drop_last());
            return Ok(token);
        }
        proof {
            use_type_invariant(&self.cursor);
            lemma_scan_advances(
                self@.text,
                self@.position as int,
                self@.last_word,
                self@.lenient || ignore_unclosed,
            );
        }
        let input = self.cursor.input;
        let len = input.len();
        let pos = self.cursor.pos;
        let lenient = self.ignore || ignore_unclosed;
        let c = input.get(pos);
        let mut word = self.cursor.word;
        let scanned = if is_whitespace(c) {
            scan_space(input, pos)
        } else if is_punctuation(c) {
            scan_punctuation(input, pos)
        } else if c == '(' {
            let after_url = match word {
                Some((from, to)) => is_url(input, from, to),
                None => false,
            };
            word = None;
            match scan_paren(input, pos, after_url, lenient) {
                Ok(scanned) => scanned,
                Err(construct) => {
                    return Err(self.unclosed(construct));
                },
            }
        } else if is_quote(c) {
            match scan_string(input, pos, lenient) {
                Ok(scanned) => scanned,
                Err(construct) => {
                    return Err(self.unclosed(construct));
                },
            }
        } else if c == '@' {
            scan_at_word(input, pos)
        } else if c == '\\' {
            scan_escape(input, pos)
        } else if c == '/' && char_code_at(input, pos + 1) == '*' {
            match scan_comment(input, pos, lenient) {
                Ok(scanned) => scanned,
                Err(construct) => {
                    return Err(self.unclosed(construct));
                },
            }
        } else {
            let scanned = scan_word(input, pos);
            word = Some((pos, scanned.1));
            scanned
        };
        self.cursor = Cursor { input, pos: scanned.1, word };
        Ok(scanned.0)
    }
}

} // verus!
