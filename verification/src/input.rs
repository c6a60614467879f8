//! The text a scanner reads, held so that every offset counts characters.

use vstd::prelude::*;

verus! {

/// The byte that stands for `c` where the text is searched bytewise: the
/// character's own code for ASCII, `0x80` for every other character.
#[verifier::allow_in_spec]
pub fn ascii_code(c: char) -> u8
    returns
        (if (c as u32) < 0x80 {
            c as u8
        } else {
            0x80u8
        }),
{
    if (c as u32) < 0x80 {
        c as u8
    } else {
        0x80
    }
}

/// The bytes that stand for the characters of `text`, one for one.
pub open spec fn ascii_codes(text: Seq<char>) -> Seq<u8> {
    Seq::new(text.len(), |i: int| ascii_code(text[i]))
}

/// The character at offset `i` of `text`, or NUL where `i` lies outside it.
pub open spec fn char_at(text: Seq<char>, i: int) -> char {
    if 0 <= i < text.len() {
        text[i]
    } else {
        '\0'
    }
}

/// A byte below `0x80` stands for one character only.
pub proof fn lemma_ascii_code_tells(a: char, b: char)
    requires
        ascii_code(a) < 0x80,
    ensures
        ascii_code(b) == ascii_code(a) <==> b == a,
{
    if ascii_code(b) == ascii_code(a) {
        assert((a as u32) < 0x80);
        assert((b as u32) < 0x80);
        assert(a as u8 == a as u32);
        assert(b as u8 == b as u32);
        assert(a as u32 == b as u32);
    }
}

/// A source text, decoded once. It is read by character offset in constant
/// time, and carries one byte per character for bytewise search.
#[derive(Debug)]
pub struct Input {
    chars: Vec<char>,
    codes: Vec<u8>,
}

impl View for Input {
    type V = Seq<char>;

    closed spec fn view(&self) -> Seq<char> {
        self.chars@
    }
}

impl Input {
    #[verifier::type_invariant]
    spec fn well_formed(&self) -> bool {
        self.codes@ == ascii_codes(self.chars@)
    }

    /// Holds `css` as it is: nothing is normalised.
    pub fn new(css: &str) -> (input: Input)
        ensures
            input@ == css@,
    {
        let mut chars: Vec<char> = Vec::new();
        let mut codes: Vec<u8> = Vec::new();
        for c in it: css.chars()
            invariant
                it.seq() == css@,
                chars@ == it.seq().subrange(0, it.index() as int),
                codes@ == ascii_codes(chars@),
        {
            chars.push(c);
            codes.push(ascii_code(c));
        }
        Input { chars, codes }
    }

    /// The number of characters.
    pub fn len(&self) -> (n: usize)
        ensures
            n == self@.len(),
    {
        self.chars.len()
    }

    /// The character at offset `i`.
    pub fn get(&self, i: usize) -> (c: char)
        requires
            i < self@.len(),
        ensures
            c == self@[i as int],
    {
        self.chars[i]
    }

    /// No text is longer than an offset can say.
    pub proof fn lemma_len_fits(&self)
        ensures
            self@.len() <= usize::MAX,
    {
        assert(self.chars.len() == self.chars@.len());
    }

    /// The text as bytes, one per character.
    pub fn codes(&self) -> (bytes: &[u8])
        ensures
            bytes@ == ascii_codes(self@),
    {
        proof {
            use_type_invariant(self);
        }
        self.codes.as_slice()
    }
}

} // verus!
