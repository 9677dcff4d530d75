//! The first element of a sequence that has a property.
use vstd::prelude::*;

verus! {

/// The index of the first element of `s` at or after `k` for which `p` holds.
pub open spec fn first_from<A>(s: Seq<A>, p: spec_fn(A) -> bool, k: int) -> Option<usize>
    decreases s.len() - k,
{
    if k < 0 || k >= s.len() {
        None
    } else if p(s[k]) {
        Some(k as usize)
    } else {
        first_from(s, p, k + 1)
    }
}

/// [`first_from`] finds an element exactly when there is one, and no earlier one qualifies.
pub proof fn lemma_first_from<A>(s: Seq<A>, p: spec_fn(A) -> bool, k: int)
    requires
        0 <= k,
        s.len() <= usize::MAX,
    ensures
        match first_from(s, p, k) {
            Some(i) => {
                &&& k <= i < s.len()
                &&& p(s[i as int])
                &&& forall|j: int| k <= j < i ==> !p(#[trigger] s[j])
            },
            None => forall|j: int| k <= j < s.len() ==> !p(#[trigger] s[j]),
        },
    decreases s.len() - k,
{
    if k < s.len() && !p(s[k]) {
        lemma_first_from(s, p, k + 1);
    }
}

/// What [`first_from`] finds is an index of the sequence.
pub proof fn lemma_first_in_range<A>(s: Seq<A>, p: spec_fn(A) -> bool, k: int)
    ensures
        first_from(s, p, k) matches Some(i) ==> i < s.len(),
    decreases s.len() - k,
{
    if 0 <= k < s.len() && !p(s[k]) {
        lemma_first_in_range(s, p, k + 1);
    }
}

/// Two sequences whose elements agree on a property have the same first element with it.
pub proof fn lemma_first_same<A>(s: Seq<A>, t: Seq<A>, p: spec_fn(A) -> bool, k: int)
    requires
        s.len() == t.len(),
        forall|j: int| 0 <= j < s.len() ==> p(#[trigger] s[j]) == p(t[j]),
    ensures
        first_from(s, p, k) == first_from(t, p, k),
    decreases s.len() - k,
{
    if 0 <= k < s.len() && !p(s[k]) {
        lemma_first_same(s, t, p, k + 1);
    }
}

} // verus!
