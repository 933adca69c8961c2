//! First index in a range that satisfies a predicate.

use vstd::prelude::*;

verus! {

/// `i` is the first index in `[lo, hi)` at which `p` holds.
pub open spec fn is_first_from(lo: int, hi: int, p: spec_fn(int) -> bool, i: int) -> bool {
    &&& lo <= i < hi
    &&& p(i)
    &&& forall|j: int| lo <= j < i ==> !#[trigger] p(j)
}

/// The first index in `[lo, hi)` at which `p` holds, if there is one.
pub open spec fn first_from(lo: int, hi: int, p: spec_fn(int) -> bool) -> Option<int> {
    if exists|i: int| is_first_from(lo, hi, p, i) {
        Some(choose|i: int| is_first_from(lo, hi, p, i))
    } else {
        None
    }
}

pub proof fn lemma_first_from_found(lo: int, hi: int, p: spec_fn(int) -> bool, i: int)
    requires
        is_first_from(lo, hi, p, i),
    ensures
        first_from(lo, hi, p) == Some(i),
{
    let k = choose|k: int| is_first_from(lo, hi, p, k);
    assert(is_first_from(lo, hi, p, k));
    if k < i {
        assert(!p(k));
    } else if i < k {
        assert(!p(i));
    }
}

pub proof fn lemma_first_from_none(lo: int, hi: int, p: spec_fn(int) -> bool)
    requires
        forall|j: int| lo <= j < hi ==> !#[trigger] p(j),
    ensures
        first_from(lo, hi, p) is None,
{
    if exists|i: int| is_first_from(lo, hi, p, i) {
        let k = choose|k: int| is_first_from(lo, hi, p, k);
        assert(p(k));
    }
}

pub proof fn lemma_first_from_some(lo: int, hi: int, p: spec_fn(int) -> bool)
    requires
        first_from(lo, hi, p) is Some,
    ensures
        is_first_from(lo, hi, p, first_from(lo, hi, p)->0),
{
}

} // verus!
