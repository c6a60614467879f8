//! Tokens, and the one failure a scan can end in.

use vstd::prelude::*;
use vstd::string::StringExecFns;

verus! {

/// A token: its kind, its content, and the offsets of its first and last
/// character where it carries them.
///
/// The content is the source text the token covers, delimiters included and
/// nothing unescaped.
#[derive(Debug, PartialEq, Eq)]
pub struct Token(pub String, pub String, pub Option<usize>, pub Option<usize>);

/// What a [`Token`] says.
pub struct TokenView {
    pub kind: Seq<char>,
    pub content: Seq<char>,
    pub start: Option<int>,
    pub end: Option<int>,
}

/// An offset a token may carry, as a number.
pub open spec fn offset_view(offset: Option<usize>) -> Option<int> {
    match offset {
        Some(i) => Some(i as int),
        None => None,
    }
}

impl View for Token {
    type V = TokenView;

    open spec fn view(&self) -> TokenView {
        TokenView {
            kind: self.0@,
            content: self.1@,
            start: offset_view(self.2),
            end: offset_view(self.3),
        }
    }
}

impl Token {
    /// A token of the given kind and content, with the offsets `pos` of its
    /// first and `next` of its last character.
    pub fn new(kind: &str, content: &str, pos: Option<usize>, next: Option<usize>) -> (token: Token)
        ensures
            token@ == (TokenView {
                kind: kind@,
                content: content@,
                start: offset_view(pos),
                end: offset_view(next),
            }),
            token.2 == pos,
            token.3 == next,
    {
        Token(String::from_str(kind), String::from_str(content), pos, next)
    }
}

impl Clone for Token {
    fn clone(&self) -> (token: Token)
        ensures
            token == *self,
    {
        Token(self.0.clone(), self.1.clone(), self.2, self.3)
    }
}

/// The constructs that need a closing delimiter.
#[derive(Debug, Clone, Copy, PartialEq, Eq)]
pub enum Construct {
    /// The raw argument of `url(`, closed by `)`.
    Bracket,
    /// A string, closed by the quote that opened it.
    String,
    /// A comment, closed by `*/`.
    Comment,
}

impl Construct {
    /// What [`Construct::name`] returns.
    pub open spec fn spec_name(self) -> Seq<char> {
        match self {
            Construct::Bracket => "bracket"@,
            Construct::String => "string"@,
            Construct::Comment => "comment"@,
        }
    }

    /// The construct's name in a message.
    pub fn name(self) -> (name: &'static str)
        ensures
            name@ == self.spec_name(),
    {
        match self {
            Construct::Bracket => "bracket",
            Construct::String => "string",
            Construct::Comment => "comment",
        }
    }
}

/// A construct was opened at `position` and the text ends before it closes.
#[derive(Debug, Clone, Copy, PartialEq, Eq)]
pub struct UnclosedConstruct {
    pub construct: Construct,
    pub position: usize,
}

} // verus!
