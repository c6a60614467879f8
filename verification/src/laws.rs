//! What holds of every text and every scanner.

use vstd::prelude::*;
use crate::chars::{is_quote, is_whitespace};
use crate::scan::{is_token_kind, lemma_scan_advances, scan, string_at};
use crate::stop::{first_stop, is_escaped, lemma_first_stop, stops, Stop};
use crate::token::{Construct, TokenView, UnclosedConstruct};
use crate::tokenizer::TokenizerView;

verus! {

/// The contents of `tokens`, one after the other.
pub open spec fn contents(tokens: Seq<TokenView>) -> Seq<char>
    decreases tokens.len(),
{
    if tokens.len() == 0 {
        Seq::empty()
    } else {
        tokens[0].content + contents(tokens.drop_first())
    }
}

/// The tokens that calls of `next_token`, repeated until `end_of_file`,
/// return one after the other; `None` where one of the calls fails.
pub open spec fn drained(scanner: TokenizerView, ignore_unclosed: bool) -> Option<Seq<TokenView>>
    decreases scanner.pending.len(), scanner.text.len() - scanner.position,
{
    if scanner.end_of_file() {
        Some(Seq::empty())
    } else {
        proof {
            if scanner.pending.len() == 0 {
                lemma_scan_advances(
                    scanner.text,
                    scanner.position as int,
                    scanner.last_word,
                    scanner.lenient || ignore_unclosed,
                );
            }
        }
        let (result, after) = scanner.next_token(ignore_unclosed);
        match result {
            Ok(token) => match drained(after, ignore_unclosed) {
                Some(rest) => Some(seq![token] + rest),
                None => None,
            },
            Err(_) => None,
        }
    }
}

/// Draining a scanner yields its pending tokens, last first, and then
/// tokens whose contents are the text not scanned yet; and it yields them,
/// unless a construct is left open and neither the scanner nor the calls are
/// lenient.
pub proof fn lemma_drained(scanner: TokenizerView, ignore_unclosed: bool)
    requires
        scanner.position <= scanner.text.len(),
    ensures
        drained(scanner, ignore_unclosed) matches Some(tokens) ==> contents(tokens) == contents(
            scanner.pending.reverse(),
        ) + scanner.text.subrange(scanner.position as int, scanner.text.len() as int),
        scanner.lenient || ignore_unclosed ==> drained(scanner, ignore_unclosed) is Some,
    decreases scanner.pending.len(), scanner.text.len() - scanner.position,
{
    let text = scanner.text;
    let end = text.len() as int;
    if scanner.end_of_file() {
        assert(scanner.pending.reverse() =~= Seq::empty());
        assert(text.subrange(scanner.position as int, end) =~= Seq::empty());
    } else {
        let (result, after) = scanner.next_token(ignore_unclosed);
        if scanner.pending.len() > 0 {
            lemma_drained(after, ignore_unclosed);
            let token = scanner.pending.last();
            if let Some(rest) = drained(after, ignore_unclosed) {
                let tokens = seq![token] + rest;
                assert(tokens.drop_first() =~= rest);
                assert(scanner.pending.reverse().drop_first() =~= after.pending.reverse());
                assert(scanner.pending.reverse()[0] == token);
            }
        } else {
            lemma_scan_advances(
                text,
                scanner.position as int,
                scanner.last_word,
                scanner.lenient || ignore_unclosed,
            );
            if let Ok(token) = result {
                lemma_drained(after, ignore_unclosed);
                if let Some(rest) = drained(after, ignore_unclosed) {
                    let tokens = seq![token] + rest;
                    assert(tokens.drop_first() =~= rest);
                    assert(after.pending.reverse() =~= Seq::empty());
                    assert(scanner.pending.reverse() =~= Seq::empty());
                    assert(text.subrange(scanner.position as int, end) =~= token.content
                        + text.subrange(after.position as int, end));
                }
            }
        }
    }
}

/// The tokens of a text partition it without loss: the contents of the
/// tokens that a new scanner hands out until it is at the end of its text,
/// one after the other, are the text. A lenient scanner does hand them all
/// out.
pub proof fn lemma_lossless_partition(text: Seq<char>, lenient: bool, ignore_unclosed: bool)
    ensures
        drained(
            TokenizerView { text, lenient, position: 0, last_word: None, pending: Seq::empty() },
            ignore_unclosed,
        ) matches Some(tokens) ==> contents(tokens) == text,
        lenient || ignore_unclosed ==> drained(
            TokenizerView { text, lenient, position: 0, last_word: None, pending: Seq::empty() },
            ignore_unclosed,
        ) is Some,
{
    let scanner = TokenizerView {
        text,
        lenient,
        position: 0,
        last_word: None,
        pending: Seq::empty(),
    };
    lemma_drained(scanner, ignore_unclosed);
    assert(scanner.pending.reverse() =~= Seq::empty());
    assert(text.subrange(0, text.len() as int) =~= text);
}

/// A token taken back is what the next call returns, and after that call
/// the scanner is what it was before the token was taken back; taking it
/// back does not move the scanner either.
pub proof fn lemma_pushback_identity(
    scanner: TokenizerView,
    token: TokenView,
    ignore_unclosed: bool,
)
    ensures
        scanner.back(token).next_token(ignore_unclosed) == (
            Ok::<TokenView, UnclosedConstruct>(token),
            scanner,
        ),
        scanner.back(token).position == scanner.position,
{
    assert(scanner.pending.push(token).drop_last() =~= scanner.pending);
}

/// Handing out a pending token moves nothing: the offset and the word
/// remembered stay, and the token is the one taken back last.
pub proof fn lemma_replay_keeps_the_cursor(scanner: TokenizerView, ignore_unclosed: bool)
    requires
        scanner.pending.len() > 0,
    ensures
        ({
            let (result, after) = scanner.next_token(ignore_unclosed);
            &&& result == Ok::<TokenView, UnclosedConstruct>(scanner.pending.last())
            &&& after.position == scanner.position
            &&& after.last_word == scanner.last_word
            &&& after.pending == scanner.pending.drop_last()
        }),
{
}

/// A token that is scanned is not empty, it is the text from the offset of
/// the scanner on, and the scanner moves past it.
pub proof fn lemma_scan_moves_the_cursor(scanner: TokenizerView, ignore_unclosed: bool)
    requires
        scanner.pending.len() == 0,
        scanner.position < scanner.text.len(),
    ensures
        ({
            let (result, after) = scanner.next_token(ignore_unclosed);
            result matches Ok(token) ==> {
                &&& token.content.len() > 0
                &&& after.position == scanner.position + token.content.len()
                &&& after.position <= scanner.text.len()
                &&& token.content == scanner.text.subrange(
                    scanner.position as int,
                    after.position as int,
                )
            }
        }),
{
    lemma_scan_advances(
        scanner.text,
        scanner.position as int,
        scanner.last_word,
        scanner.lenient || ignore_unclosed,
    );
}

/// A call fails only where neither the scanner nor the call is lenient;
/// it then reports the offset the scanner stands at, and changes nothing.
pub proof fn lemma_failure(scanner: TokenizerView, ignore_unclosed: bool)
    requires
        !scanner.end_of_file(),
    ensures
        scanner.lenient || ignore_unclosed ==> scanner.next_token(ignore_unclosed).0 is Ok,
        scanner.next_token(ignore_unclosed).0 matches Err(unclosed) ==> unclosed.position
            == scanner.position as usize && scanner.next_token(ignore_unclosed).1 == scanner,
{
    if scanner.pending.len() == 0 {
        lemma_scan_advances(
            scanner.text,
            scanner.position as int,
            scanner.last_word,
            scanner.lenient || ignore_unclosed,
        );
    }
}

/// The names of the kinds differ in length, but for two, and no name is one
/// character long.
proof fn lemma_kind_lengths()
    ensures
        "space"@.len() == 5,
        "word"@.len() == 4,
        "string"@.len() == 6,
        "comment"@.len() == 7,
        "at-word"@.len() == 7,
        "brackets"@.len() == 8,
{
    reveal_strlit("space");
    reveal_strlit("word");
    reveal_strlit("string");
    reveal_strlit("comment");
    reveal_strlit("at-word");
    reveal_strlit("brackets");
}

/// Every token that is scanned is of one of the kinds there are. A `space`
/// token carries no offsets. A character that is a token by itself carries
/// its offset as start and no end. Every other token carries the offsets of
/// its first and of its last character, which lie in the text.
pub proof fn lemma_token_shape(
    text: Seq<char>,
    pos: int,
    last_word: Option<Seq<char>>,
    lenient: bool,
)
    requires
        0 <= pos < text.len(),
    ensures
        scan(text, pos, last_word, lenient) matches Ok(scanned) ==> {
            let token = scanned.token;
            &&& is_token_kind(token.kind)
            &&& token.kind == "space"@ ==> token.start is None && token.end is None
            &&& token.kind != "space"@ ==> token.start == Some(pos)
            &&& token.kind.len() == 1 ==> token.end is None && token.content == token.kind
            &&& token.kind != "space"@ && token.kind.len() != 1 ==> token.end == Some(
                pos + token.content.len() - 1,
            ) && pos + token.content.len() - 1 < text.len()
        },
{
    lemma_kind_lengths();
    lemma_scan_advances(text, pos, last_word, lenient);
    assert(text.subrange(pos, pos + 1).len() == 1);
    assert(text.subrange(pos, pos + 1)[0] == text[pos]);
}

/// A run of whitespace is one token: a scan that starts at whitespace
/// yields a `space` token that holds the whole run. All of its characters
/// are whitespace, and the character after it, if there is one, is not.
pub proof fn lemma_whitespace_coalesced(
    text: Seq<char>,
    pos: int,
    last_word: Option<Seq<char>>,
    lenient: bool,
)
    requires
        0 <= pos < text.len(),
        is_whitespace(text[pos]),
    ensures
        scan(text, pos, last_word, lenient) matches Ok(scanned) && scanned.token.kind == "space"@
            && pos < scanned.next <= text.len() && scanned.token.content == text.subrange(
            pos,
            scanned.next,
        ) && (forall|i: int| pos <= i < scanned.next ==> is_whitespace(text[i])) && (scanned.next
            < text.len() ==> !is_whitespace(text[scanned.next])),
{
    lemma_first_stop(Stop::NotSpace, text, pos + 1);
    let next = first_stop(Stop::NotSpace, text, pos + 1);
    assert forall|i: int| pos <= i < next implies is_whitespace(text[i]) by {
        if pos < i {
            assert(!stops(Stop::NotSpace, text, i));
        }
    }
}

/// A `space` token comes from a scan that starts at whitespace, and from no
/// other.
pub proof fn lemma_space_starts_at_whitespace(
    text: Seq<char>,
    pos: int,
    last_word: Option<Seq<char>>,
    lenient: bool,
)
    requires
        0 <= pos < text.len(),
    ensures
        (scan(text, pos, last_word, lenient) matches Ok(scanned) && scanned.token.kind == "space"@)
            <==> is_whitespace(text[pos]),
{
    lemma_kind_lengths();
    assert(text.subrange(pos, pos + 1).len() == 1);
}

/// No run of whitespace is split: after a `space` token that was scanned,
/// the next scan yields a token of another kind.
pub proof fn lemma_space_never_follows_space(
    text: Seq<char>,
    pos: int,
    last_word: Option<Seq<char>>,
    lenient: bool,
)
    requires
        0 <= pos < text.len(),
        scan(text, pos, last_word, lenient) matches Ok(scanned) && scanned.token.kind == "space"@
            && scanned.next < text.len(),
    ensures
        ({
            let first = scan(text, pos, last_word, lenient)->Ok_0;
            !(scan(text, first.next, first.last_word, lenient) matches Ok(second)
                && second.token.kind == "space"@)
        }),
{
    lemma_space_starts_at_whitespace(text, pos, last_word, lenient);
    lemma_whitespace_coalesced(text, pos, last_word, lenient);
    let first = scan(text, pos, last_word, lenient)->Ok_0;
    lemma_space_starts_at_whitespace(text, first.next, first.last_word, lenient);
}

/// The quote at offset `i` closes the string opened at `pos`: it is of the
/// same kind, and the backslashes directly before it are even in number.
pub open spec fn closes_string(text: Seq<char>, pos: int, i: int) -> bool {
    text[i] == text[pos] && !is_escaped(text, i)
}

/// A string ends at the first quote after the opening one that closes it,
/// and at no quote that is escaped. Only where no quote closes it is it cut
/// short or the scan failed.
pub proof fn lemma_string_ends_at_the_closing_quote(text: Seq<char>, pos: int, lenient: bool)
    requires
        0 <= pos < text.len(),
        is_quote(text[pos]),
    ensures
        match string_at(text, pos, lenient) {
            Ok(string) => {
                let last = string.next - 1;
                if pos < last && closes_string(text, pos, last) {
                    forall|i: int| pos < i < last ==> !closes_string(text, pos, i)
                } else {
                    &&& lenient
                    &&& forall|i: int| pos < i < text.len() ==> !closes_string(text, pos, i)
                    &&& string.next == if pos + 2 <= text.len() {
                        pos + 2
                    } else {
                        text.len() as int
                    }
                }
            },
            Err(construct) => {
                &&& !lenient
                &&& construct == Construct::String
                &&& forall|i: int| pos < i < text.len() ==> !closes_string(text, pos, i)
            },
        },
{
    let stop = Stop::Unescaped(text[pos]);
    lemma_first_stop(stop, text, pos + 1);
    let close = first_stop(stop, text, pos + 1);
    assert forall|i: int| pos < i < close implies !closes_string(text, pos, i) by {
        assert(!stops(stop, text, i));
    }
    if close < text.len() {
        assert(stops(stop, text, close));
    }
}

} // verus!
