//! Facts about filtered sequences that the proofs of the library share.

use vstd::prelude::*;

verus! {

/// Filtering one element more keeps it where it passes, and drops it where not.
pub proof fn lemma_filter_step<A>(s: Seq<A>, pred: spec_fn(A) -> bool)
    requires
        s.len() > 0,
    ensures
        s.filter(pred) == if pred(s.last()) {
            s.drop_last().filter(pred).push(s.last())
        } else {
            s.drop_last().filter(pred)
        },
{
    reveal_with_fuel(Seq::filter, 2);
}

/// Nothing passes a filter of nothing.
pub proof fn lemma_filter_empty<A>(pred: spec_fn(A) -> bool)
    ensures
        Seq::<A>::empty().filter(pred) == Seq::<A>::empty(),
{
    reveal_with_fuel(Seq::filter, 1);
}

/// Filtering again by a predicate that the first one implies changes nothing.
pub proof fn lemma_refilter<A>(s: Seq<A>, p: spec_fn(A) -> bool, q: spec_fn(A) -> bool)
    requires
        forall|x: A| #[trigger] p(x) ==> q(x),
    ensures
        s.filter(p).filter(q) == s.filter(p),
    decreases s.len(),
{
    if s.len() == 0 {
        lemma_filter_empty(p);
        lemma_filter_empty(q);
        assert(s =~= Seq::<A>::empty());
    } else {
        lemma_refilter(s.drop_last(), p, q);
        lemma_filter_step(s, p);
        if p(s.last()) {
            let kept = s.drop_last().filter(p).push(s.last());
            assert(kept.drop_last() =~= s.drop_last().filter(p));
            lemma_filter_step(kept, q);
        }
    }
}

} // verus!
