//! Specifications that are assumed, not proved: of the byte searches this
//! crate calls, and of one method of `String`.

use vstd::prelude::*;

verus! {

/// `needle` stands in `haystack` at offset `i`, byte for byte.
pub open spec fn occurs_at(haystack: Seq<u8>, needle: Seq<u8>, i: int) -> bool {
    0 <= i && i + needle.len() <= haystack.len() && haystack.subrange(i, i + needle.len())
        == needle
}

/// `memchr::memchr` returns the offset of the first byte of `haystack` that
/// equals `needle`, and `None` where no byte does.
pub assume_specification[ memchr::memchr ](needle: u8, haystack: &[u8]) -> (found: Option<usize>)
    ensures
        match found {
            Some(i) => i < haystack@.len() && haystack@[i as int] == needle && forall|j: int|
                0 <= j < i ==> haystack@[j] != needle,
            None => forall|j: int| 0 <= j < haystack@.len() ==> haystack@[j] != needle,
        },
;

/// `memchr::memmem::find` returns the first offset at which `needle` occurs
/// in `haystack`, and `None` where it occurs at none.
pub assume_specification[ memchr::memmem::find ](haystack: &[u8], needle: &[u8]) -> (found:
    Option<usize>)
    ensures
        match found {
            Some(i) => occurs_at(haystack@, needle@, i as int) && forall|j: int|
                0 <= j < i ==> !occurs_at(haystack@, needle@, j),
            None => forall|j: int| !occurs_at(haystack@, needle@, j),
        },
;

/// `String::push` appends `c` to the string.
pub assume_specification[ std::string::String::push ](s: &mut std::string::String, c: char)
    ensures
        final(s)@ == old(s)@.push(c),
;

} // verus!
