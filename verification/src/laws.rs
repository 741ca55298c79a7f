//! Engine-wide laws, each proved from the planner's and graph's
//! specifications alone.

use vstd::prelude::*;
use crate::graph::{is_perm, lemma_parent_pos_lt, pos_of, respects_parents};
use crate::plan::{
    applied_pred, apply_all_candidates, lemma_filter_all, lemma_filter_none, not_applied_pred,
    revert_all_candidates,
};

verus! {

/// For any cycle-free graph, the full order respects every parent-to-child
/// edge: the parent's position strictly precedes the child's.
pub proof fn law_full_order_respects_edges(
    parents: Seq<Seq<usize>>,
    order: Seq<usize>,
    child: usize,
    parent: usize,
)
    requires
        is_perm(order, parents.len()),
        respects_parents(parents, order),
        child < parents.len(),
        parents[child as int].contains(parent),
    ensures
        0 <= pos_of(order, parent) < pos_of(order, child) < order.len(),
        order[pos_of(order, parent)] == parent,
        order[pos_of(order, child)] == child,
{
    lemma_parent_pos_lt(parents, order, child, parent);
}

/// Applying everything twice in succession: once every node is applied, the
/// apply-all candidate set, and so the second run's plan, is empty.
pub proof fn law_second_apply_all_empty(
    order: Seq<usize>,
    applied0: Seq<bool>,
    applied1: Seq<bool>,
    n: nat,
)
    requires
        is_perm(order, n),
        applied0.len() == n,
        applied1.len() == n,
        forall|i: int|
            0 <= i < n ==> #[trigger] applied1[i] == (applied0[i] || apply_all_candidates(
                order,
                applied0,
            ).contains(i as usize)),
    ensures
        apply_all_candidates(order, applied1) == Seq::<usize>::empty(),
{
    assert forall|k: int| 0 <= k < order.len() implies !not_applied_pred(applied1)(
        #[trigger] order[k],
    ) by {
        let x = order[k];
        if !applied0[x as int] {
            assert(not_applied_pred(applied0)(order[k]));
            order.lemma_filter_contains(not_applied_pred(applied0), k);
            assert(apply_all_candidates(order, applied0).contains(x));
        }
        assert(applied1[x as int]);
    }
    lemma_filter_none(order, not_applied_pred(applied1));
}

/// Reverting everything immediately after applying everything: from a clean
/// state the apply plan covers the whole order, the revert plan is its exact
/// reverse, and it visits every node, so executing it empties the applied
/// set.
pub proof fn law_revert_all_reverses_apply_all(
    order: Seq<usize>,
    applied0: Seq<bool>,
    applied1: Seq<bool>,
    n: nat,
)
    requires
        is_perm(order, n),
        applied0.len() == n,
        applied1.len() == n,
        forall|i: int| 0 <= i < n ==> !applied0[i],
        forall|i: int| 0 <= i < n ==> applied1[i],
    ensures
        apply_all_candidates(order, applied0) == order,
        revert_all_candidates(order, applied1) == order.reverse(),
        forall|x: usize| x < n ==> revert_all_candidates(order, applied1).contains(x),
{
    assert forall|k: int| 0 <= k < order.len() implies not_applied_pred(applied0)(
        #[trigger] order[k],
    ) by {
        assert(order[k] < n);
    }
    lemma_filter_all(order, not_applied_pred(applied0));
    assert forall|k: int| 0 <= k < order.reverse().len() implies applied_pred(applied1)(
        #[trigger] order.reverse()[k],
    ) by {
        assert(order.reverse()[k] == order[order.len() - 1 - k]);
    }
    lemma_filter_all(order.reverse(), applied_pred(applied1));
    assert forall|x: usize| x < n implies revert_all_candidates(order, applied1).contains(x) by {
        crate::graph::lemma_perm_contains(order, n, x);
        let j = choose|j: int| 0 <= j < order.len() && order[j] == x;
        assert(order.reverse()[order.len() - 1 - j] == x);
        assert(revert_all_candidates(order, applied1) == order.reverse());
    }
}

} // verus!
