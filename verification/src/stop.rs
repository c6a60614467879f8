//! Where a scan comes to rest: each kind of token ends at the first offset
//! that meets a condition of its own.

use vstd::prelude::*;
use crate::chars::{is_at_word_delimiter, is_hex_digit, is_whitespace, is_word_delimiter};
use crate::input::char_at;

verus! {

/// How many backslashes stand in an unbroken run directly before offset `i`.
pub open spec fn backslashes_before(text: Seq<char>, i: int) -> nat
    decreases i,
{
    if 0 < i <= text.len() && text[i - 1] == '\\' {
        1 + backslashes_before(text, i - 1)
    } else {
        0
    }
}

/// The character at offset `i` is escaped: an odd number of backslashes
/// stands directly before it.
pub open spec fn is_escaped(text: Seq<char>, i: int) -> bool {
    backslashes_before(text, i) % 2 == 1
}

/// A comment opens at offset `i`: `/` followed by `*`.
pub open spec fn opens_comment(text: Seq<char>, i: int) -> bool {
    char_at(text, i) == '/' && char_at(text, i + 1) == '*'
}

/// A comment closes at offset `i`: `*` followed by `/`.
pub open spec fn closes_comment(text: Seq<char>, i: int) -> bool {
    char_at(text, i) == '*' && char_at(text, i + 1) == '/'
}

/// A condition on an offset of a text at which a scan stops.
#[derive(Debug, Clone, Copy, PartialEq, Eq)]
pub enum Stop {
    /// The character is not whitespace.
    NotSpace,
    /// The character is the given one.
    Char(char),
    /// The character is the given one and is not escaped.
    Unescaped(char),
    /// A comment closes here.
    CommentClose,
    /// An at-word ends before this character.
    AtWordEnd,
    /// A word ends before this character.
    WordEnd,
    /// The character is no hexadecimal digit.
    NotHex,
    /// The character is no backslash.
    NotBackslash,
}

/// The condition `stop` holds at offset `i` of `text`.
pub open spec fn stops(stop: Stop, text: Seq<char>, i: int) -> bool {
    match stop {
        Stop::NotSpace => !is_whitespace(text[i]),
        Stop::Char(c) => text[i] == c,
        Stop::Unescaped(c) => text[i] == c && !is_escaped(text, i),
        Stop::CommentClose => closes_comment(text, i),
        Stop::AtWordEnd => is_at_word_delimiter(text[i]) || opens_comment(text, i),
        Stop::WordEnd => is_word_delimiter(text[i]) || opens_comment(text, i),
        Stop::NotHex => !is_hex_digit(text[i]),
        Stop::NotBackslash => text[i] != '\\',
    }
}

/// The first offset at or after `from` at which `stop` holds, or the length
/// of the text where it holds at none.
pub open spec fn first_stop(stop: Stop, text: Seq<char>, from: int) -> int
    decreases text.len() - from,
{
    if from >= text.len() {
        text.len() as int
    } else if stops(stop, text, from) {
        from
    } else {
        first_stop(stop, text, from + 1)
    }
}

/// `first_stop` lies between `from` and the end, the condition holds there
/// unless that is the end, and it holds nowhere from `from` up to there.
pub proof fn lemma_first_stop(stop: Stop, text: Seq<char>, from: int)
    requires
        0 <= from <= text.len(),
    ensures
        from <= first_stop(stop, text, from) <= text.len(),
        first_stop(stop, text, from) < text.len() ==> stops(
            stop,
            text,
            first_stop(stop, text, from),
        ),
        forall|j: int| from <= j < first_stop(stop, text, from) ==> !stops(stop, text, j),
    decreases text.len() - from,
{
    if from < text.len() && !stops(stop, text, from) {
        lemma_first_stop(stop, text, from + 1);
    }
}

/// An offset that the condition holds at (or the end), with none before it
/// from `from` on, is `first_stop`.
pub proof fn lemma_first_stop_unique(stop: Stop, text: Seq<char>, from: int, at: int)
    requires
        0 <= from <= at <= text.len(),
        at < text.len() ==> stops(stop, text, at),
        forall|j: int| from <= j < at ==> !stops(stop, text, j),
    ensures
        first_stop(stop, text, from) == at,
    decreases at - from,
{
    if from < at {
        lemma_first_stop_unique(stop, text, from + 1, at);
    }
}

/// Where backslashes fill `[from, to)`, the count before `to` is the run's
/// length more than the count before `from`.
pub proof fn lemma_backslash_run(text: Seq<char>, from: int, to: int)
    requires
        0 <= from <= to <= text.len(),
        forall|j: int| from <= j < to ==> text[j] == '\\',
    ensures
        backslashes_before(text, to) == backslashes_before(text, from) + (to - from),
    decreases to - from,
{
    if from < to {
        lemma_backslash_run(text, from, to - 1);
    }
}

} // verus!
