//! Counting places: how many numbers of a range have a property.
use vstd::prelude::*;

verus! {

/// The places from `lo` to below `hi` that have the property.
pub open spec fn places(p: spec_fn(int) -> bool, lo: int, hi: int) -> Set<int> {
    Set::new(|i: int| lo <= i < hi && p(i))
}

/// The places of a range are finitely many, and never more than the range holds.
pub proof fn lemma_places_finite(p: spec_fn(int) -> bool, lo: int, hi: int)
    ensures
        places(p, lo, hi).finite(),
        places(p, lo, hi).len() <= if lo < hi {
            hi - lo
        } else {
            0
        },
    decreases hi - lo,
{
    if lo < hi {
        let before = places(p, lo, hi - 1);
        lemma_places_finite(p, lo, hi - 1);
        if p(hi - 1) {
            assert(places(p, lo, hi) =~= before.insert(hi - 1));
        } else {
            assert(places(p, lo, hi) =~= before);
        }
    } else {
        assert(places(p, lo, hi) =~= Set::empty());
    }
}

/// One place more counts for one where it has the property.
pub proof fn lemma_places_step(p: spec_fn(int) -> bool, lo: int, hi: int)
    requires
        lo < hi,
    ensures
        places(p, lo, hi - 1).finite(),
        places(p, lo, hi).finite(),
        places(p, lo, hi).len() == places(p, lo, hi - 1).len() + if p(hi - 1) {
            1nat
        } else {
            0
        },
{
    let before = places(p, lo, hi - 1);
    lemma_places_finite(p, lo, hi - 1);
    if p(hi - 1) {
        assert(places(p, lo, hi) =~= before.insert(hi - 1));
    } else {
        assert(places(p, lo, hi) =~= before);
    }
}

/// A range may be counted in two parts.
pub proof fn lemma_places_split(p: spec_fn(int) -> bool, lo: int, mid: int, hi: int)
    requires
        lo <= mid <= hi,
    ensures
        places(p, lo, hi).len() == places(p, lo, mid).len() + places(p, mid, hi).len(),
    decreases hi - mid,
{
    if mid < hi {
        lemma_places_split(p, lo, mid, hi - 1);
        lemma_places_step(p, lo, hi);
        lemma_places_step(p, mid, hi);
    } else {
        assert(places(p, mid, hi) =~= Set::empty());
    }
}

/// Properties that agree on a range have the same places there.
pub proof fn lemma_places_agree(
    p: spec_fn(int) -> bool,
    q: spec_fn(int) -> bool,
    lo: int,
    hi: int,
)
    requires
        forall|i: int| lo <= i < hi ==> #[trigger] p(i) == q(i),
    ensures
        places(p, lo, hi) == places(q, lo, hi),
{
    assert forall|i: int| places(p, lo, hi).contains(i) == places(q, lo, hi).contains(i) by {
        if lo <= i < hi {
            assert(p(i) == q(i));
        }
    }
    assert(places(p, lo, hi) =~= places(q, lo, hi));
}

} // verus!
