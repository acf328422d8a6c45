//! Facts about sequences.

use vstd::prelude::*;

verus! {

/// What a filtered sequence holds: what the sequence holds and the filter lets by.
pub proof fn lemma_filter_holds<A>(s: Seq<A>, p: spec_fn(A) -> bool, x: A)
    ensures
        s.filter(p).contains(x) <==> s.contains(x) && p(x),
{
    if s.filter(p).contains(x) {
        let i = choose|i: int| 0 <= i < s.filter(p).len() && s.filter(p)[i] == x;
        s.lemma_filter_pred(p, i);
        s.lemma_filter_contains_rev(p, x);
    }
    if s.contains(x) && p(x) {
        let i = choose|i: int| 0 <= i < s.len() && s[i] == x;
        s.lemma_filter_contains(p, i);
    }
}

} // verus!
