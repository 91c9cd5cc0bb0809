//! The search for the end of a request head, which can be taken up again
//! after each read without going over the whole buffer.

use crate::text::{
    find, first_from, lemma_first_from_is_first, lemma_first_from_is_stable,
    lemma_first_from_none, lemma_first_from_unique, occurs_at,
};
use vstd::prelude::*;

verus! {

/// The carriage return.
pub const CR: u8 = 13;

/// The line feed.
pub const LF: u8 = 10;

/// The end of a header line.
pub open spec fn crlf() -> Seq<u8> {
    seq![CR, LF]
}

/// The four bytes that end a request head.
pub open spec fn terminator() -> Seq<u8> {
    seq![CR, LF, CR, LF]
}

/// Where the head of the request in `buf` ends: the index of the first
/// terminator, if the buffer holds one.
pub open spec fn head_end(buf: Seq<u8>) -> Option<int> {
    first_from(buf, terminator(), 0)
}

/// Where a search is taken up again once `scanned` bytes have been searched:
/// three bytes back, since a terminator may have begun in them.
pub open spec fn resume_from(scanned: int) -> int {
    if scanned >= 3 {
        scanned - 3
    } else {
        0
    }
}

/// Where to take the search up again once `scanned` bytes have been searched.
pub fn resume_point(scanned: usize) -> (from: usize)
    ensures
        from == resume_from(scanned as int),
{
    if scanned >= 3 {
        scanned - 3
    } else {
        0
    }
}

/// The first terminator in `buf` that begins at or after the point at which
/// the search is taken up after `scanned` bytes.
pub fn find_terminator(buf: &[u8], scanned: usize) -> (found: Option<usize>)
    ensures
        match found {
            Some(i) => first_from(buf@, terminator(), resume_from(scanned as int)) == Some(
                i as int,
            ) && i + 4 <= buf@.len(),
            None => first_from(buf@, terminator(), resume_from(scanned as int)) is None,
        },
{
    let mark: [u8; 4] = [CR, LF, CR, LF];
    assert(mark@ == terminator());
    find(buf, mark.as_slice(), resume_point(scanned))
}

/// A search that is taken up three bytes before the end of what was searched
/// misses nothing: where the first `scanned` bytes hold no terminator, it
/// finds what a search of the whole buffer finds.
pub proof fn lemma_resumed_search_misses_nothing(buf: Seq<u8>, scanned: int)
    requires
        0 <= scanned <= buf.len(),
        head_end(buf.take(scanned)) is None,
    ensures
        first_from(buf, terminator(), resume_from(scanned)) == head_end(buf),
{
    let from = resume_from(scanned);
    let seen = buf.take(scanned);
    lemma_first_from_is_first(seen, terminator(), 0);
    assert forall|j: int| 0 <= j < from implies !occurs_at(buf, terminator(), j) by {
        if occurs_at(buf, terminator(), j) {
            assert(seen.subrange(j, j + 4) == buf.subrange(j, j + 4));
            assert(occurs_at(seen, terminator(), j));
        }
    }
    lemma_first_from_is_first(buf, terminator(), from);
    match first_from(buf, terminator(), from) {
        Some(i) => {
            lemma_first_from_unique(buf, terminator(), 0, i);
        },
        None => {
            lemma_first_from_none(buf, terminator(), 0);
        },
    }
}

/// Bytes that follow a terminator do not move it: a buffer that holds a
/// terminator and the same buffer with more bytes behind it end their head at
/// the same index.
pub proof fn lemma_head_end_is_stable(buf: Seq<u8>, more: Seq<u8>)
    requires
        head_end(buf) is Some,
    ensures
        head_end(buf + more) == head_end(buf),
{
    lemma_first_from_is_stable(buf, more, terminator());
}

} // verus!
