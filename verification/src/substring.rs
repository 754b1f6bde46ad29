//! Substring search on byte sequences.

use vstd::prelude::*;

verus! {

/// `needle` stands in `hay` at byte offset `at`.
pub open spec fn occurs_at(hay: Seq<u8>, needle: Seq<u8>, at: int) -> bool {
    &&& 0 <= at
    &&& at + needle.len() <= hay.len()
    &&& hay.subrange(at, at + needle.len()) == needle
}

/// `needle` stands somewhere in `hay`.
pub open spec fn contains(hay: Seq<u8>, needle: Seq<u8>) -> bool {
    exists|at: int| occurs_at(hay, needle, at)
}

/// `needle` stands in `hay` at `at` and at no smaller offset.
pub open spec fn is_first_occurrence(hay: Seq<u8>, needle: Seq<u8>, at: int) -> bool {
    &&& occurs_at(hay, needle, at)
    &&& forall|earlier: int| 0 <= earlier < at ==> !occurs_at(hay, needle, earlier)
}

/// The smallest offset at which `needle` stands in `hay`; meaningful only
/// where `contains(hay, needle)`.
pub open spec fn first_index_of(hay: Seq<u8>, needle: Seq<u8>) -> int {
    choose|at: int| is_first_occurrence(hay, needle, at)
}

/// Below any occurrence there is a first one.
proof fn lemma_least_occurrence(hay: Seq<u8>, needle: Seq<u8>, at: int) -> (least: int)
    requires
        occurs_at(hay, needle, at),
    ensures
        is_first_occurrence(hay, needle, least),
        least <= at,
    decreases at,
{
    if exists|earlier: int| 0 <= earlier < at && occurs_at(hay, needle, earlier) {
        let earlier = choose|earlier: int| 0 <= earlier < at && occurs_at(hay, needle, earlier);
        lemma_least_occurrence(hay, needle, earlier)
    } else {
        at
    }
}

/// Where the needle occurs at all, `first_index_of` is its first occurrence.
pub proof fn lemma_first_index_of(hay: Seq<u8>, needle: Seq<u8>)
    requires
        contains(hay, needle),
    ensures
        is_first_occurrence(hay, needle, first_index_of(hay, needle)),
        0 <= first_index_of(hay, needle),
        first_index_of(hay, needle) + needle.len() <= hay.len(),
{
    let at = choose|at: int| occurs_at(hay, needle, at);
    let least = lemma_least_occurrence(hay, needle, at);
}

/// A first occurrence is the only first occurrence.
pub proof fn lemma_first_occurrence_unique(hay: Seq<u8>, needle: Seq<u8>, at: int)
    requires
        is_first_occurrence(hay, needle, at),
    ensures
        contains(hay, needle),
        first_index_of(hay, needle) == at,
{
    lemma_first_index_of(hay, needle);
}

/// The empty needle stands at the start of every text.
pub proof fn lemma_empty_needle(hay: Seq<u8>, needle: Seq<u8>)
    requires
        needle.len() == 0,
    ensures
        contains(hay, needle),
        first_index_of(hay, needle) == 0,
{
    assert(hay.subrange(0, 0) =~= needle);
    assert(is_first_occurrence(hay, needle, 0));
    lemma_first_occurrence_unique(hay, needle, 0);
}

/// Compares `needle` with the bytes of `hay` that start at `at`.
fn occurs_here(hay: &[u8], needle: &[u8], at: usize) -> (here: bool)
    requires
        at + needle@.len() <= hay@.len(),
    ensures
        here == occurs_at(hay@, needle@, at as int),
{
    let end: usize = hay.len();
    let mut k: usize = 0;
    while k < needle.len()
        invariant
            k <= needle@.len(),
            at + needle@.len() <= hay@.len() == end,
            forall|j: int| 0 <= j < k ==> hay@[at + j] == needle@[j],
        decreases needle@.len() - k,
    {
        if hay[at + k] != needle[k] {
            assert(hay@.subrange(at as int, at + needle@.len())[k as int] == hay@[at + k]);
            return false;
        }
        k += 1;
    }
    assert(hay@.subrange(at as int, at + needle@.len()) =~= needle@);
    true
}

/// The byte offset of the first occurrence of `needle` in `hay`, if there
/// is one. The empty needle is found at offset 0.
pub fn find(hay: &[u8], needle: &[u8]) -> (found: Option<usize>)
    ensures
        found is Some <==> contains(hay@, needle@),
        found matches Some(at) ==> is_first_occurrence(hay@, needle@, at as int),
{
    if needle.len() > hay.len() {
        return None;
    }
    let last: usize = hay.len() - needle.len();
    let mut at: usize = 0;
    loop
        invariant
            last == hay@.len() - needle@.len(),
            at <= last,
            forall|earlier: int| 0 <= earlier < at ==> !occurs_at(hay@, needle@, earlier),
        decreases last - at,
    {
        if occurs_here(hay, needle, at) {
            return Some(at);
        }
        if at == last {
            return None;
        }
        at += 1;
    }
}

} // verus!
