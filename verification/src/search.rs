//! Finding the first occurrence of one string in another.
//!
//! The predicates speak of sequences of any kind, so that they serve for a
//! text's characters as for its bytes; the search itself runs on bytes.

use vstd::prelude::*;

verus! {

/// `needle` stands in `hay` at offset `at`.
pub open spec fn occurs_at<T>(hay: Seq<T>, needle: Seq<T>, at: int) -> bool {
    &&& 0 <= at
    &&& at + needle.len() <= hay.len()
    &&& hay.subrange(at, at + needle.len()) == needle
}

/// `needle` stands in `hay` at offset `at` and at no smaller offset.
pub open spec fn first_occurs_at<T>(hay: Seq<T>, needle: Seq<T>, at: int) -> bool {
    &&& occurs_at(hay, needle, at)
    &&& forall|j: int| 0 <= j < at ==> !occurs_at(hay, needle, j)
}

/// `needle` stands somewhere in `hay`.
pub open spec fn occurs<T>(hay: Seq<T>, needle: Seq<T>) -> bool {
    exists|at: int| occurs_at(hay, needle, at)
}

/// The smallest offset at which `needle` stands in `hay`, if there is one.
pub open spec fn first_occurrence<T>(hay: Seq<T>, needle: Seq<T>) -> Option<int> {
    if exists|at: int| first_occurs_at(hay, needle, at) {
        Some(choose|at: int| first_occurs_at(hay, needle, at))
    } else {
        None
    }
}

/// At most one offset is the first occurrence, so an offset that is one is
/// what `first_occurrence` gives.
pub proof fn lemma_first_occurrence_is<T>(hay: Seq<T>, needle: Seq<T>, at: int)
    requires
        first_occurs_at(hay, needle, at),
    ensures
        first_occurrence(hay, needle) == Some(at),
{
    let c = choose|k: int| first_occurs_at(hay, needle, k);
    if c < at {
        assert(!occurs_at(hay, needle, c));
    }
    if at < c {
        assert(!occurs_at(hay, needle, at));
    }
}

/// Where `needle` stands nowhere in `hay`, there is no first occurrence.
pub proof fn lemma_first_occurrence_none<T>(hay: Seq<T>, needle: Seq<T>)
    requires
        !occurs(hay, needle),
    ensures
        first_occurrence(hay, needle) is None,
{
    if exists|at: int| first_occurs_at(hay, needle, at) {
        let c = choose|k: int| first_occurs_at(hay, needle, k);
        assert(occurs_at(hay, needle, c));
    }
}

/// Whether `needle` stands in `hay` at offset `at`.
pub fn matches_at(hay: &[u8], needle: &[u8], at: usize) -> (r: bool)
    requires
        at + needle@.len() <= hay@.len(),
    ensures
        r == occurs_at(hay@, needle@, at as int),
{
    let h: usize = hay.len();
    let n: usize = needle.len();
    let mut k: usize = 0;
    while k < n
        invariant
            h == hay@.len(),
            n == needle@.len(),
            at + n <= h,
            k <= n,
            forall|j: int| 0 <= j < k ==> hay@[at + j] == needle@[j],
        decreases n - k,
    {
        if hay[at + k] != needle[k] {
            proof {
                let window = hay@.subrange(at as int, at + n);
                assert(window[k as int] == hay@[at + k]);
            }
            return false;
        }
        k += 1;
    }
    proof {
        assert(hay@.subrange(at as int, at + n) =~= needle@);
    }
    true
}

/// The offset of the first occurrence of `needle` in `hay`.
pub fn find(hay: &[u8], needle: &[u8]) -> (r: Option<usize>)
    ensures
        match r {
            Some(at) => first_occurrence(hay@, needle@) == Some(at as int),
            None => first_occurrence(hay@, needle@) is None,
        },
        r is Some <==> occurs(hay@, needle@),
{
    let h: usize = hay.len();
    let n: usize = needle.len();
    if n > h {
        proof {
            lemma_first_occurrence_none(hay@, needle@);
        }
        return None;
    }
    let last: usize = h - n;
    let mut at: usize = 0;
    while at < last
        invariant
            h == hay@.len(),
            n == needle@.len(),
            n <= h,
            last == h - n,
            at <= last,
            forall|j: int| 0 <= j < at ==> !occurs_at(hay@, needle@, j),
        decreases last - at,
    {
        if matches_at(hay, needle, at) {
            proof {
                lemma_first_occurrence_is(hay@, needle@, at as int);
            }
            return Some(at);
        }
        at += 1;
    }
    if matches_at(hay, needle, last) {
        proof {
            lemma_first_occurrence_is(hay@, needle@, last as int);
        }
        Some(last)
    } else {
        proof {
            lemma_first_occurrence_none(hay@, needle@);
        }
        None
    }
}

} // verus!
