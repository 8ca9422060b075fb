//! Facts about filtered sequences that the aggregation proofs share.

use vstd::prelude::*;

verus! {

/// Filtering one element more keeps it or drops it, and changes nothing else.
pub proof fn lemma_filter_take_step<A>(s: Seq<A>, j: int, pred: spec_fn(A) -> bool)
    requires
        0 <= j < s.len(),
    ensures
        s.take(j + 1).filter(pred) == if pred(s[j]) {
            s.take(j).filter(pred).push(s[j])
        } else {
            s.take(j).filter(pred)
        },
{
    reveal(Seq::filter);
    assert(s.take(j + 1).drop_last() =~= s.take(j));
}

/// Filtering a sequence is filtering its two parts.
pub proof fn lemma_filter_split<A>(s: Seq<A>, k: int, pred: spec_fn(A) -> bool)
    requires
        0 <= k <= s.len(),
    ensures
        s.filter(pred) == s.take(k).filter(pred) + s.skip(k).filter(pred),
{
    assert(s =~= s.take(k) + s.skip(k));
    Seq::filter_distributes_over_add(s.take(k), s.skip(k), pred);
}

/// Filtering nothing gives nothing.
pub proof fn lemma_filter_empty<A>(pred: spec_fn(A) -> bool)
    ensures
        Seq::<A>::empty().filter(pred) == Seq::<A>::empty(),
{
    reveal(Seq::filter);
}

} // verus!
