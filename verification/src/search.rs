//! Locating a byte string inside a larger buffer.
use vstd::prelude::*;

verus! {

/// `needle` occurs in `hay` starting at offset `i`.
pub open spec fn occurs_at(hay: Seq<u8>, needle: Seq<u8>, i: int) -> bool {
    &&& 0 <= i
    &&& i + needle.len() <= hay.len()
    &&& hay.subrange(i, i + needle.len()) == needle
}

/// The first offset, not below `from`, at which `needle` occurs in `hay`.
pub open spec fn first_occurrence_from(hay: Seq<u8>, needle: Seq<u8>, from: int) -> Option<int>
    decreases hay.len() + 1 - from,
{
    if from < 0 || from + needle.len() > hay.len() {
        None
    } else if occurs_at(hay, needle, from) {
        Some(from)
    } else {
        first_occurrence_from(hay, needle, from + 1)
    }
}

/// The first offset at which `needle` occurs in `hay`, if it occurs at all.
pub open spec fn first_occurrence(hay: Seq<u8>, needle: Seq<u8>) -> Option<int> {
    first_occurrence_from(hay, needle, 0)
}

/// `first_occurrence_from` finds exactly the least matching offset at or after `from`.
pub proof fn lemma_first_occurrence_from(hay: Seq<u8>, needle: Seq<u8>, from: int)
    requires
        0 <= from,
    ensures
        first_occurrence_from(hay, needle, from) matches Some(i) ==> {
            &&& from <= i
            &&& occurs_at(hay, needle, i)
            &&& forall|j: int| from <= j < i ==> !occurs_at(hay, needle, j)
        },
        first_occurrence_from(hay, needle, from) is None ==> forall|j: int|
            from <= j ==> !occurs_at(hay, needle, j),
    decreases hay.len() + 1 - from,
{
    if from + needle.len() > hay.len() {
    } else if occurs_at(hay, needle, from) {
    } else {
        lemma_first_occurrence_from(hay, needle, from + 1);
        assert forall|j: int| from <= j < from + 1 implies !occurs_at(hay, needle, j) by {}
    }
}

/// The first occurrence is the least offset at which the needle occurs, and
/// `None` means that the needle occurs nowhere.
pub proof fn lemma_first_occurrence(hay: Seq<u8>, needle: Seq<u8>)
    ensures
        first_occurrence(hay, needle) matches Some(i) ==> {
            &&& occurs_at(hay, needle, i)
            &&& forall|j: int| 0 <= j < i ==> !occurs_at(hay, needle, j)
        },
        first_occurrence(hay, needle) is None ==> forall|j: int| !occurs_at(hay, needle, j),
{
    lemma_first_occurrence_from(hay, needle, 0);
}

/// An offset where the needle occurs and before which it does not is the first occurrence.
pub proof fn lemma_first_occurrence_is(hay: Seq<u8>, needle: Seq<u8>, i: int)
    requires
        occurs_at(hay, needle, i),
        forall|j: int| 0 <= j < i ==> !occurs_at(hay, needle, j),
    ensures
        first_occurrence(hay, needle) == Some(i),
{
    lemma_first_occurrence(hay, needle);
    match first_occurrence(hay, needle) {
        Some(k) => {
            if k < i {
            } else if i < k {
            }
        },
        None => {},
    }
}

/// Where no offset carries the needle, there is no first occurrence.
pub proof fn lemma_first_occurrence_none(hay: Seq<u8>, needle: Seq<u8>)
    requires
        forall|j: int| !occurs_at(hay, needle, j),
    ensures
        first_occurrence(hay, needle) is None,
{
    lemma_first_occurrence(hay, needle);
}

/// Two haystacks that agree on their first `k` bytes have the same first
/// occurrence of a needle that one of them holds within those bytes.
pub proof fn lemma_first_occurrence_agree(h1: Seq<u8>, h2: Seq<u8>, needle: Seq<u8>, e: int, k: int)
    requires
        first_occurrence(h1, needle) == Some(e),
        e + needle.len() <= k,
        k <= h1.len(),
        k <= h2.len(),
        forall|x: int| 0 <= x < k ==> h1[x] == h2[x],
    ensures
        first_occurrence(h2, needle) == Some(e),
{
    lemma_first_occurrence(h1, needle);
    assert(h2.subrange(e, e + needle.len()) =~= h1.subrange(e, e + needle.len()));
    assert forall|j: int| 0 <= j < e implies !occurs_at(h2, needle, j) by {
        assert(!occurs_at(h1, needle, j));
        assert(h2.subrange(j, j + needle.len()) =~= h1.subrange(j, j + needle.len()));
    }
    lemma_first_occurrence_is(h2, needle, e);
}

/// A prefix that ends before the first occurrence is complete holds no occurrence.
pub proof fn lemma_no_occurrence_in_short_prefix(h: Seq<u8>, needle: Seq<u8>, e: int, k: int)
    requires
        first_occurrence(h, needle) == Some(e),
        0 <= k < e + needle.len(),
        k <= h.len(),
    ensures
        first_occurrence(h.subrange(0, k), needle) is None,
{
    lemma_first_occurrence(h, needle);
    let p = h.subrange(0, k);
    assert forall|j: int| !occurs_at(p, needle, j) by {
        if occurs_at(p, needle, j) {
            assert(j < e);
            assert(h.subrange(j, j + needle.len()) =~= p.subrange(j, j + needle.len()));
            assert(occurs_at(h, needle, j));
        }
    }
    lemma_first_occurrence_none(p, needle);
}

/// Compares `needle` with the bytes of `hay` that start at `at`.
fn matches_at(hay: &[u8], needle: &[u8], at: usize) -> (r: bool)
    requires
        at + needle@.len() <= hay@.len(),
    ensures
        r == occurs_at(hay@, needle@, at as int),
{
    let n = needle.len();
    let hl = hay.len();
    let mut k: usize = 0;
    while k < n
        invariant
            n == needle@.len(),
            hl == hay@.len(),
            at + n <= hay@.len(),
            0 <= k <= n,
            forall|j: int| 0 <= j < k ==> hay@[at + j] == needle@[j],
        decreases n - k,
    {
        if hay[at + k] != needle[k] {
            assert(hay@.subrange(at as int, at + n)[k as int] != needle@[k as int]);
            return false;
        }
        k = k + 1;
    }
    assert(hay@.subrange(at as int, at + n) =~= needle@);
    true
}

/// Finds the first offset at which `needle` occurs in `haystack`.
///
/// The needle must not be empty.
pub fn find_substr(haystack: &[u8], needle: &[u8]) -> (r: Option<usize>)
    requires
        needle@.len() > 0,
    ensures
        r matches Some(i) ==> first_occurrence(haystack@, needle@) == Some(i as int),
        r is None ==> first_occurrence(haystack@, needle@) is None,
{
    if needle.len() > haystack.len() {
        return None;
    }
    let hl = haystack.len();
    let last = hl - needle.len();
    let mut i: usize = 0;
    while i <= last
        invariant
            last + needle@.len() == haystack@.len(),
            hl == haystack@.len(),
            needle@.len() > 0,
            0 <= i <= last + 1,
            first_occurrence(haystack@, needle@) == first_occurrence_from(
                haystack@,
                needle@,
                i as int,
            ),
        decreases last + 1 - i,
    {
        if matches_at(haystack, needle, i) {
            return Some(i);
        }
        i = i + 1;
    }
    None
}

} // verus!
