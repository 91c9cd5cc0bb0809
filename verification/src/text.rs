//! Byte strings: ASCII text as bytes, comparison, and the search for the
//! first occurrence of a pattern.

use vstd::prelude::*;

verus! {

/// The bytes of an ASCII text, one byte for each character.
pub open spec fn ascii(text: Seq<char>) -> Seq<u8> {
    Seq::new(text.len(), |i: int| text[i] as u8)
}

/// `pat` stands in `hay` at index `i`.
pub open spec fn occurs_at(hay: Seq<u8>, pat: Seq<u8>, i: int) -> bool {
    &&& 0 <= i
    &&& i + pat.len() <= hay.len()
    &&& hay.subrange(i, i + pat.len()) == pat
}

/// The least index at or after `from` at which `pat` stands in `hay`.
pub open spec fn first_from(hay: Seq<u8>, pat: Seq<u8>, from: int) -> Option<int>
    decreases hay.len() + 1 - from,
{
    if from < 0 || from + pat.len() > hay.len() {
        None
    } else if occurs_at(hay, pat, from) {
        Some(from)
    } else {
        first_from(hay, pat, from + 1)
    }
}

/// `s` begins with `prefix`.
pub open spec fn has_prefix(s: Seq<u8>, prefix: Seq<u8>) -> bool {
    occurs_at(s, prefix, 0)
}

/// The two sides of the first occurrence of `pat` in `s`, if there is one.
pub open spec fn split_once(s: Seq<u8>, pat: Seq<u8>) -> Option<(Seq<u8>, Seq<u8>)> {
    match first_from(s, pat, 0) {
        Some(i) => Some((s.take(i), s.skip(i + pat.len()))),
        None => None,
    }
}

/// The byte strings one after the other, as one.
pub open spec fn joined(parts: Seq<Seq<u8>>) -> Seq<u8>
    decreases parts.len(),
{
    if parts.len() == 0 {
        Seq::empty()
    } else {
        joined(parts.drop_last()) + parts.last()
    }
}

/// Byte strings as one: the first, then the others as one.
pub proof fn lemma_joined_first(parts: Seq<Seq<u8>>)
    requires
        parts.len() > 0,
    ensures
        joined(parts) == parts[0] + joined(parts.skip(1)),
    decreases parts.len(),
{
    if parts.len() == 1 {
        assert(parts.drop_last().len() == 0);
        assert(parts.skip(1).len() == 0);
        assert(joined(parts.drop_last()) == Seq::<u8>::empty());
        assert(joined(parts.skip(1)) == Seq::<u8>::empty());
        assert(joined(parts) == parts[0]);
    } else {
        lemma_joined_first(parts.drop_last());
        assert(parts.drop_last().skip(1) == parts.skip(1).drop_last());
        assert(parts.skip(1).last() == parts.last());
        assert(parts.drop_last()[0] == parts[0]);
    }
}

/// Where a byte string holds no occurrence, none of its prefixes holds one.
pub proof fn lemma_prefix_holds_none(hay: Seq<u8>, pat: Seq<u8>, k: int)
    requires
        0 <= k <= hay.len(),
        first_from(hay, pat, 0) is None,
    ensures
        first_from(hay.take(k), pat, 0) is None,
{
    lemma_first_from_is_first(hay, pat, 0);
    let head = hay.take(k);
    assert forall|j: int| 0 <= j implies !occurs_at(head, pat, j) by {
        if occurs_at(head, pat, j) {
            assert(hay.subrange(j, j + pat.len()) == head.subrange(j, j + pat.len()));
            assert(occurs_at(hay, pat, j));
        }
    }
    lemma_first_from_none(head, pat, 0);
}

/// Bytes behind the first occurrence do not move it.
pub proof fn lemma_first_from_is_stable(hay: Seq<u8>, more: Seq<u8>, pat: Seq<u8>)
    requires
        first_from(hay, pat, 0) is Some,
    ensures
        first_from(hay + more, pat, 0) == first_from(hay, pat, 0),
{
    lemma_first_from_is_first(hay, pat, 0);
    let i = first_from(hay, pat, 0)->0;
    let all = hay + more;
    assert(all.subrange(i, i + pat.len()) == hay.subrange(i, i + pat.len()));
    assert forall|j: int| 0 <= j < i implies !occurs_at(all, pat, j) by {
        if occurs_at(all, pat, j) {
            assert(all.subrange(j, j + pat.len()) == hay.subrange(j, j + pat.len()));
            assert(occurs_at(hay, pat, j));
        }
    }
    lemma_first_from_unique(all, pat, 0, i);
}

/// What `first_from` finds is an occurrence, and nothing occurs before it.
pub proof fn lemma_first_from_is_first(hay: Seq<u8>, pat: Seq<u8>, from: int)
    requires
        0 <= from,
    ensures
        match first_from(hay, pat, from) {
            Some(i) => from <= i && occurs_at(hay, pat, i) && forall|j: int|
                from <= j < i ==> !occurs_at(hay, pat, j),
            None => forall|j: int| from <= j ==> !occurs_at(hay, pat, j),
        },
    decreases hay.len() + 1 - from,
{
    if from + pat.len() > hay.len() {
    } else if occurs_at(hay, pat, from) {
    } else {
        lemma_first_from_is_first(hay, pat, from + 1);
    }
}

/// An occurrence with nothing before it is what `first_from` finds.
pub proof fn lemma_first_from_unique(hay: Seq<u8>, pat: Seq<u8>, from: int, i: int)
    requires
        0 <= from <= i,
        occurs_at(hay, pat, i),
        forall|j: int| from <= j < i ==> !occurs_at(hay, pat, j),
    ensures
        first_from(hay, pat, from) == Some(i),
    decreases i - from,
{
    if from < i {
        lemma_first_from_unique(hay, pat, from + 1, i);
    }
}

/// Where nothing occurs at or after `from`, `first_from` finds nothing.
pub proof fn lemma_first_from_none(hay: Seq<u8>, pat: Seq<u8>, from: int)
    requires
        forall|j: int| from <= j ==> !occurs_at(hay, pat, j),
    ensures
        first_from(hay, pat, from) is None,
    decreases hay.len() + 1 - from,
{
    if from < 0 || from + pat.len() > hay.len() {
    } else {
        lemma_first_from_none(hay, pat, from + 1);
    }
}

/// Appends `bytes` to `out`.
pub fn push_bytes(out: &mut Vec<u8>, bytes: &[u8])
    ensures
        final(out)@ == old(out)@ + bytes@,
{
    let mut i: usize = 0;
    while i < bytes.len()
        invariant
            i <= bytes@.len(),
            out@ == old(out)@ + bytes@.take(i as int),
        decreases bytes@.len() - i,
    {
        out.push(bytes[i]);
        i += 1;
    }
}

/// Appends an ASCII text to `out`, one byte for each character.
pub(crate) fn push_text(out: &mut Vec<u8>, text: &str)
    requires
        text.is_ascii(),
    ensures
        final(out)@ == old(out)@ + ascii(text@),
{
    broadcast use vstd::string::is_ascii_spec_bytes;

    let bytes = text.as_bytes();
    assert(bytes@ == ascii(text@));
    push_bytes(out, bytes);
}

/// Whether two byte strings are the same.
pub fn same_bytes(a: &[u8], b: &[u8]) -> (same: bool)
    ensures
        same == (a@ == b@),
{
    if a.len() != b.len() {
        return false;
    }
    let mut i: usize = 0;
    while i < a.len()
        invariant
            i <= a@.len(),
            a@.len() == b@.len(),
            a@.take(i as int) == b@.take(i as int),
        decreases a@.len() - i,
    {
        if a[i] != b[i] {
            return false;
        }
        assert(a@.take(i + 1) == a@.take(i as int).push(a@[i as int]));
        assert(b@.take(i + 1) == b@.take(i as int).push(b@[i as int]));
        i += 1;
    }
    assert(a@ == a@.take(a@.len() as int));
    assert(b@ == b@.take(b@.len() as int));
    true
}

/// Whether a byte string is the given ASCII text.
pub(crate) fn is_text(bytes: &[u8], text: &str) -> (same: bool)
    requires
        text.is_ascii(),
    ensures
        same == (bytes@ == ascii(text@)),
{
    broadcast use vstd::string::is_ascii_spec_bytes;

    let wanted = text.as_bytes();
    assert(wanted@ == ascii(text@));
    same_bytes(bytes, wanted)
}

/// Whether `pat` stands in `hay` at index `at`.
pub fn stands_at(hay: &[u8], pat: &[u8], at: usize) -> (found: bool)
    ensures
        found == occurs_at(hay@, pat@, at as int),
{
    if pat.len() > hay.len() || at > hay.len() - pat.len() {
        return false;
    }
    let window = vstd::slice::slice_subrange(hay, at, at + pat.len());
    same_bytes(window, pat)
}

/// Whether a byte string begins with the given ASCII text.
pub(crate) fn starts_with_text(bytes: &[u8], text: &str) -> (found: bool)
    requires
        text.is_ascii(),
    ensures
        found == has_prefix(bytes@, ascii(text@)),
{
    broadcast use vstd::string::is_ascii_spec_bytes;

    let wanted = text.as_bytes();
    assert(wanted@ == ascii(text@));
    stands_at(bytes, wanted, 0)
}

/// The first index at or after `from` at which `pat` stands in `hay`.
pub fn find(hay: &[u8], pat: &[u8], from: usize) -> (found: Option<usize>)
    ensures
        match found {
            Some(i) => first_from(hay@, pat@, from as int) == Some(i as int) && from <= i && i
                + pat@.len() <= hay@.len(),
            None => first_from(hay@, pat@, from as int) is None,
        },
{
    proof {
        lemma_first_from_is_first(hay@, pat@, from as int);
    }
    if pat.len() > hay.len() || from > hay.len() - pat.len() {
        return None;
    }
    let last: usize = hay.len() - pat.len();
    let mut i: usize = from;
    loop
        invariant
            from <= i <= last,
            last == hay@.len() - pat@.len(),
            first_from(hay@, pat@, from as int) == first_from(hay@, pat@, i as int),
        decreases last - i,
    {
        if stands_at(hay, pat, i) {
            return Some(i);
        }
        if i == last {
            assert(first_from(hay@, pat@, i + 1) is None);
            return None;
        }
        i += 1;
    }
}

} // verus!
