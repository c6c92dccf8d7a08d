//! What holds of a pick: each candidate is selected by as many draws as its
//! weight counts.

use vstd::prelude::*;
use crate::instances::Entry;
use crate::selector::{lemma_walk_bounds, total_weight, walk, weight_of};

verus! {

/// The sum of the weights of the candidates before index `i`.
pub open spec fn weight_before(candidates: Seq<Entry>, i: int) -> nat {
    total_weight(candidates.take(i))
}

/// The sum of the weights is the first weight plus the sum of the others.
pub proof fn lemma_total_weight_front(candidates: Seq<Entry>)
    requires
        candidates.len() > 0,
    ensures
        total_weight(candidates) == weight_of(candidates[0]) + total_weight(candidates.drop_first()),
    decreases candidates.len(),
{
    if candidates.len() == 1 {
        assert(candidates.drop_last() =~= Seq::<Entry>::empty());
        assert(candidates.drop_first() =~= Seq::<Entry>::empty());
    } else {
        lemma_total_weight_front(candidates.drop_last());
        assert(candidates.drop_last().drop_first() =~= candidates.drop_first().drop_last());
    }
}

/// The weights before an index grow with the index and stay within the
/// sum of all weights.
pub proof fn lemma_weight_before(candidates: Seq<Entry>, i: int)
    requires
        0 <= i < candidates.len(),
    ensures
        weight_before(candidates, i + 1) == weight_before(candidates, i) + weight_of(candidates[i]),
        weight_before(candidates, i + 1) <= total_weight(candidates),
        weight_before(candidates, 0) == 0,
    decreases candidates.len() - i,
{
    assert(candidates.take(i + 1).drop_last() =~= candidates.take(i));
    if i + 1 < candidates.len() {
        lemma_weight_before(candidates, i + 1);
    } else {
        assert(candidates.take(i + 1) =~= candidates);
    }
}

/// A draw below the sum of the weights selects the
/// candidate in whose stretch of the sum it falls: candidate `i` exactly
/// when the draw is no less than the weights before `i` and less than these
/// plus the weight of `i`. So of the draws below the sum, as many select a
/// candidate as its weight counts, and a uniform draw selects it with a
/// probability of its weight over the sum.
pub proof fn lemma_walk_proportional(candidates: Seq<Entry>, draw: int, i: int)
    requires
        0 <= draw < total_weight(candidates),
        0 <= i < candidates.len(),
    ensures
        walk(candidates, draw) == i <==> weight_before(candidates, i) <= draw < weight_before(
            candidates,
            i,
        ) + weight_of(candidates[i]),
    decreases candidates.len(),
{
    lemma_total_weight_front(candidates);
    let first = weight_of(candidates[0]);
    let rest = candidates.drop_first();
    if i == 0 {
        lemma_weight_before(candidates, 0);
        if candidates.len() == 1 {
            assert(rest =~= Seq::<Entry>::empty());
        } else if draw >= first {
            lemma_walk_bounds(rest, draw - first);
        }
    } else {
        lemma_total_weight_front(candidates.take(i));
        assert(candidates.take(i)[0] == candidates[0]);
        assert(candidates.take(i).drop_first() =~= rest.take(i - 1));
        assert(rest[i - 1] == candidates[i]);
        assert(weight_before(candidates, i) == first + weight_before(rest, i - 1));
        if draw >= first {
            lemma_walk_proportional(rest, draw - first, i - 1);
        }
    }
}

/// A draw that is no less than the sum of the weights selects the last
/// candidate, and the one candidate of a list of one is selected by every
/// draw.
pub proof fn lemma_walk_falls_back(candidates: Seq<Entry>, draw: int)
    requires
        candidates.len() > 0,
    ensures
        draw >= total_weight(candidates) ==> walk(candidates, draw) == candidates.len() - 1,
        candidates.len() == 1 ==> walk(candidates, draw) == 0,
    decreases candidates.len(),
{
    if candidates.len() > 1 {
        lemma_total_weight_front(candidates);
        if draw >= total_weight(candidates) {
            lemma_walk_falls_back(candidates.drop_first(), draw - weight_of(candidates[0]));
        }
    }
}

} // verus!
