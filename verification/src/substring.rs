//! Contiguous occurrences of one sequence inside another, and a search for
//! the first of them over bytes.

use vstd::prelude::*;

verus! {

/// `needle` stands in `hay` at offset `at`.
pub open spec fn occurs_at<T>(hay: Seq<T>, needle: Seq<T>, at: int) -> bool {
    &&& 0 <= at
    &&& at + needle.len() <= hay.len()
    &&& hay.subrange(at, at + needle.len()) == needle
}

/// `needle` stands somewhere in `hay`.
pub open spec fn occurs_in<T>(hay: Seq<T>, needle: Seq<T>) -> bool {
    exists|at: int| occurs_at(hay, needle, at)
}

/// `at` is the offset of the leftmost occurrence of `needle` in `hay`.
pub open spec fn first_occurrence_at<T>(hay: Seq<T>, needle: Seq<T>, at: int) -> bool {
    &&& occurs_at(hay, needle, at)
    &&& forall|earlier: int| 0 <= earlier < at ==> !occurs_at(hay, needle, earlier)
}

/// The offset of the leftmost occurrence of `needle` in `hay`, where there
/// is an occurrence.
pub open spec fn first_occurrence<T>(hay: Seq<T>, needle: Seq<T>) -> int {
    choose|at: int| first_occurrence_at(hay, needle, at)
}

/// There is one leftmost occurrence at most.
pub proof fn lemma_first_occurrence_unique<T>(hay: Seq<T>, needle: Seq<T>, one: int, other: int)
    requires
        first_occurrence_at(hay, needle, one),
        first_occurrence_at(hay, needle, other),
    ensures
        one == other,
{
}

/// Left of any occurrence, or at it, stands the leftmost one.
pub proof fn lemma_leftmost_occurrence<T>(hay: Seq<T>, needle: Seq<T>, at: int) -> (first: int)
    requires
        occurs_at(hay, needle, at),
    ensures
        first_occurrence_at(hay, needle, first),
        first <= at,
    decreases at,
{
    if exists|earlier: int| 0 <= earlier < at && occurs_at(hay, needle, earlier) {
        let earlier = choose|earlier: int| 0 <= earlier < at && occurs_at(hay, needle, earlier);
        lemma_leftmost_occurrence(hay, needle, earlier)
    } else {
        at
    }
}

/// The leftmost occurrence, once found, is the one that `first_occurrence`
/// names.
pub proof fn lemma_first_occurrence_is<T>(hay: Seq<T>, needle: Seq<T>, at: int)
    requires
        first_occurrence_at(hay, needle, at),
    ensures
        first_occurrence(hay, needle) == at,
        occurs_in(hay, needle),
{
    lemma_first_occurrence_unique(hay, needle, at, first_occurrence(hay, needle));
}

/// Tests whether `needle` stands in `hay` at offset `at`.
pub fn matches_at(hay: &[u8], needle: &[u8], at: usize) -> (found: bool)
    ensures
        found == occurs_at(hay@, needle@, at as int),
{
    let h: usize = hay.len();
    let n: usize = needle.len();
    if at > h || n > h - at {
        return false;
    }
    let mut k: usize = 0;
    while k < n
        invariant
            h == hay@.len(),
            n == needle@.len(),
            at + n <= h,
            k <= n,
            forall|j: int| 0 <= j < k ==> hay@[at + j] == needle@[j],
        decreases n - k,
    {
        if hay[at + k] != needle[k] {
            proof {
                let window = hay@.subrange(at as int, at + n);
                assert(window[k as int] == hay@[at + k]);
            }
            return false;
        }
        k += 1;
    }
    proof {
        assert(hay@.subrange(at as int, at + n) =~= needle@);
    }
    true
}

/// Finds the offset of the leftmost occurrence of `needle` in `hay`.
pub fn find_bytes(hay: &[u8], needle: &[u8]) -> (found: Option<usize>)
    ensures
        found is Some <==> occurs_in(hay@, needle@),
        found is Some ==> first_occurrence_at(hay@, needle@, found.unwrap() as int),
{
    let h: usize = hay.len();
    let n: usize = needle.len();
    if n > h {
        return None;
    }
    let last: usize = h - n;
    let mut at: usize = 0;
    loop
        invariant
            h == hay@.len(),
            n == needle@.len(),
            last == h - n,
            at <= last,
            forall|earlier: int| 0 <= earlier < at ==> !occurs_at(hay@, needle@, earlier),
        decreases last - at,
    {
        if matches_at(hay, needle, at) {
            return Some(at);
        }
        if at == last {
            return None;
        }
        at += 1;
    }
}

} // verus!
