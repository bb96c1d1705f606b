//! Ordering positions by weight: heaviest first, positions of equal weight
//! from the earliest to the latest.

use vstd::prelude::*;
use vstd::relations::*;
use vstd::seq_lib::*;

verus! {

/// The positions `0, 1, .., n - 1`.
pub open spec fn positions(n: nat) -> Seq<usize> {
    Seq::new(n, |i: int| i as usize)
}

/// Position `i` comes before position `j`: it is heavier, or as heavy and
/// earlier.
pub open spec fn precedes(weights: Seq<u32>, i: int, j: int) -> bool {
    weights[i] > weights[j] || (weights[i] == weights[j] && i < j)
}

/// `order` lists every position of `weights` once, and each position stands
/// before all those that it precedes.
pub open spec fn is_stable_order(weights: Seq<u32>, order: Seq<usize>) -> bool {
    &&& order.to_multiset() == positions(weights.len()).to_multiset()
    &&& forall|k: int, l: int|
        #![trigger order[k], order[l]]
        0 <= k < l < order.len() ==> precedes(weights, order[k] as int, order[l] as int)
}

/// The stable descending order of `weights`.
pub open spec fn stable_order(weights: Seq<u32>) -> Seq<usize> {
    choose|order: Seq<usize>| is_stable_order(weights, order)
}

/// A stable order has the length of `weights`, holds only positions of it,
/// and holds none twice.
pub proof fn lemma_stable_order_positions(weights: Seq<u32>, order: Seq<usize>)
    requires
        is_stable_order(weights, order),
    ensures
        order.len() == weights.len(),
        forall|k: int| 0 <= k < order.len() ==> (#[trigger] order[k]) < weights.len(),
        order.no_duplicates(),
{
    broadcast use group_to_multiset_ensures;

    let all = positions(weights.len());
    to_multiset_len(order);
    to_multiset_len(all);
    assert forall|k: int| 0 <= k < order.len() implies (#[trigger] order[k]) < weights.len() by {
        assert(order.contains(order[k]));
        assert(all.to_multiset().count(order[k]) > 0);
        assert(all.contains(order[k]));
    }
}

/// Sequences with the same elements still have the same elements after
/// each element is replaced by its image.
pub proof fn lemma_map_to_multiset<A, B>(x: Seq<A>, y: Seq<A>, f: spec_fn(A) -> B)
    requires
        x.to_multiset() == y.to_multiset(),
    ensures
        x.map_values(f).to_multiset() == y.map_values(f).to_multiset(),
    decreases x.len(),
{
    broadcast use group_to_multiset_ensures;

    to_multiset_len(x);
    to_multiset_len(y);
    if x.len() == 0 {
        assert(x.map_values(f) =~= y.map_values(f));
    } else {
        let last = x.last();
        assert(x.contains(last));
        assert(y.to_multiset().count(last) > 0);
        assert(y.contains(last));
        let at = choose|at: int| 0 <= at < y.len() && y[at] == last;
        let x_rest = x.drop_last();
        let y_rest = y.remove(at);
        assert(x_rest =~= x.remove(x.len() - 1));
        to_multiset_remove(x, x.len() - 1);
        to_multiset_remove(y, at);
        lemma_map_to_multiset(x_rest, y_rest, f);
        assert(x.map_values(f) =~= x_rest.map_values(f).push(f(last)));
        assert(y.map_values(f) =~= y_rest.map_values(f).insert(at, f(last)));
        to_multiset_build(x_rest.map_values(f), f(last));
        to_multiset_insert(y_rest.map_values(f), at, f(last));
    }
}

/// Two stable orders of the same weights are equal.
pub proof fn lemma_stable_order_unique(weights: Seq<u32>, a: Seq<usize>, b: Seq<usize>)
    requires
        is_stable_order(weights, a),
        is_stable_order(weights, b),
    ensures
        a == b,
{
    let leq = |i: usize, j: usize| i == j || precedes(weights, i as int, j as int);
    assert(total_ordering(leq)) by {
        assert(reflexive(leq));
        assert(antisymmetric(leq));
        assert(transitive(leq));
        assert(strongly_connected(leq));
    }
    assert(sorted_by(a, leq));
    assert(sorted_by(b, leq));
    lemma_sorted_unique(a, b, leq);
}

/// Orders the positions of `weights`, heaviest first; positions of equal
/// weight keep their order.
pub fn sort_positions(weights: &[u32]) -> (order: Vec<usize>)
    ensures
        is_stable_order(weights@, order@),
        order@ == stable_order(weights@),
        order@.len() == weights@.len(),
        forall|k: int| 0 <= k < order@.len() ==> (#[trigger] order@[k]) < weights@.len(),
        order@.no_duplicates(),
{
    let mut order: Vec<usize> = Vec::new();
    let mut i: usize = 0;
    assert(order@ =~= positions(0));
    while i < weights.len()
        invariant
            i <= weights.len(),
            order@.len() == i,
            order@.to_multiset() == positions(i as nat).to_multiset(),
            forall|k: int| 0 <= k < order@.len() ==> (#[trigger] order@[k]) < i,
            forall|k: int, l: int|
                #![trigger order@[k], order@[l]]
                0 <= k < l < order@.len() ==> precedes(
                    weights@,
                    order@[k] as int,
                    order@[l] as int,
                ),
        decreases weights.len() - i,
    {
        let mut slot: usize = 0;
        while slot < order.len() && weights[order[slot]] >= weights[i]
            invariant
                i < weights.len(),
                slot <= order@.len(),
                forall|k: int| 0 <= k < order@.len() ==> (#[trigger] order@[k]) < i,
                forall|k: int| 0 <= k < slot ==> weights@[(#[trigger] order@[k]) as int] >= weights@[i as int],
            decreases order@.len() - slot,
        {
            slot += 1;
        }
        let ghost before = order@;
        order.insert(slot, i);
        proof {
            to_multiset_insert(before, slot as int, i);
            to_multiset_build(positions(i as nat), i);
            assert(positions((i + 1) as nat) =~= positions(i as nat).push(i));
            assert forall|k: int, l: int|
                #![trigger order@[k], order@[l]]
                0 <= k < l < order@.len() implies precedes(
                weights@,
                order@[k] as int,
                order@[l] as int,
            ) by {
                if l < slot {
                    assert(order@[k] == before[k] && order@[l] == before[l]);
                } else if l == slot {
                    assert(order@[k] == before[k]);
                } else if k < slot {
                    assert(order@[k] == before[k] && order@[l] == before[l - 1]);
                } else if k == slot {
                    assert(order@[l] == before[l - 1]);
                    if slot < l - 1 {
                        assert(precedes(weights@, before[slot as int] as int, before[l - 1] as int));
                    }
                } else {
                    assert(order@[k] == before[k - 1] && order@[l] == before[l - 1]);
                }
            }
        }
        i += 1;
    }
    proof {
        assert(is_stable_order(weights@, order@));
        lemma_stable_order_unique(weights@, order@, stable_order(weights@));
        lemma_stable_order_positions(weights@, order@);
    }
    order
}

} // verus!
