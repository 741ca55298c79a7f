//! Plan computation: given the validated graph and the currently applied
//! set, produce the ordered sequence of apply or revert steps for a request.

use vstd::prelude::*;
use crate::error::Error;
use crate::graph::{
    ancestor_or_self, has_id, id_index, is_parent_path, lemma_id_index_unique,
    lemma_perm_contains, unregistered, Graph,
};
use crate::migration::{MigrationId, MigrationNode};

verus! {

/// Direction of one plan step.
#[derive(Clone, Copy, PartialEq, Eq, Structural, Debug)]
pub enum Direction {
    /// Apply the migration's forward operations.
    Up,
    /// Apply the migration's backward operations.
    Down,
}

/// One step of a plan: which node, under which identity, in which direction.
pub struct Step {
    /// Index of the migration in the graph.
    pub node: usize,
    /// Identity of the migration, equal to the node's identity.
    pub id: MigrationId,
    /// Direction of the step.
    pub dir: Direction,
}

/// What the operator asked the engine to do.
pub enum Request {
    /// Apply every pending migration.
    ApplyAll,
    /// Apply the target and its pending ancestors, nothing else.
    ApplyUpTo(MigrationId),
    /// Revert every applied migration.
    RevertAll,
    /// Revert applied migrations that are not ancestors-or-equal of the
    /// target.
    RevertTo(MigrationId),
    /// Revert exactly the named migration.
    RevertOne(MigrationId),
}

/// `flags` marks exactly the nodes whose identity appears among `ids`: the
/// per-node reading of the control table's rows.
pub open spec fn flags_of(nodes: Seq<MigrationNode>, ids: Seq<MigrationId>, flags: Seq<bool>) -> bool {
    &&& flags.len() == nodes.len()
    &&& forall|i: int|
        0 <= i < flags.len() ==> (flags[i] <==> exists|k: int|
            0 <= k < ids.len() && #[trigger] ids[k]@ == nodes[i].id@)
}

/// Node `d` is applied, differs from the revert target `ti`, and transitively
/// depends on it: reverting `ti` would strand `d`.
pub open spec fn dependency_blocks(
    nodes: Seq<MigrationNode>,
    parents: Seq<Seq<usize>>,
    applied: Seq<bool>,
    target_id: (Seq<char>, Seq<char>),
    dependent_id: (Seq<char>, Seq<char>),
    ti: int,
    d: int,
) -> bool {
    &&& 0 <= ti < nodes.len()
    &&& nodes[ti].id@ == target_id
    &&& 0 <= d < nodes.len()
    &&& applied[d]
    &&& d != ti
    &&& nodes[d].id@ == dependent_id
    &&& applied[ti]
    &&& ancestor_or_self(parents, d as usize, ti as usize)
}

/// No applied migration other than `ti` itself transitively depends on `ti`:
/// reverting exactly `ti` strands nothing.
pub open spec fn no_applied_dependent(
    nodes: Seq<MigrationNode>,
    parents: Seq<Seq<usize>>,
    applied: Seq<bool>,
    ti: usize,
) -> bool {
    forall|dd: int|
        0 <= dd < nodes.len() && applied[dd] && dd != ti ==> !ancestor_or_self(
            parents,
            dd as usize,
            ti,
        )
}

/// What a successful revert of exactly one migration returns: an empty plan
/// when the registered target is not applied, else a single down step for it,
/// possible only when nothing applied depends on it.
#[verifier::opaque]
pub open spec fn revert_one_ok(
    nodes: Seq<MigrationNode>,
    parents: Seq<Seq<usize>>,
    applied: Seq<bool>,
    target_id: (Seq<char>, Seq<char>),
    plan: Seq<Step>,
) -> bool {
    &&& has_id(nodes, target_id)
    &&& (!applied[id_index(nodes, target_id)] ==> plan.len() == 0)
    &&& (applied[id_index(nodes, target_id)] ==> plan.len() == 1 && plan[0].node < nodes.len()
        && plan[0].node == id_index(nodes, target_id) as usize && plan[0].id@ == target_id
        && plan[0].dir == Direction::Down && no_applied_dependent(
        nodes,
        parents,
        applied,
        id_index(nodes, target_id) as usize,
    ))
}

/// The plan a request fixes against a graph and applied flags: exactly what
/// each planner's success contract states, gathered per request.
pub open spec fn plan_for_request(
    g: Graph,
    applied: Seq<bool>,
    request: Request,
    plan: Seq<Step>,
) -> bool {
    match request {
        Request::ApplyAll => steps_match(
            g.nodes_seq(),
            plan,
            apply_all_candidates(g.order_seq(), applied),
            Direction::Up,
        ),
        Request::ApplyUpTo(t) => has_id(g.nodes_seq(), t@) && steps_match(
            g.nodes_seq(),
            plan,
            apply_upto_candidates(
                g.parents_seq(),
                g.order_seq(),
                applied,
                id_index(g.nodes_seq(), t@) as usize,
            ),
            Direction::Up,
        ),
        Request::RevertAll => steps_match(
            g.nodes_seq(),
            plan,
            revert_all_candidates(g.order_seq(), applied),
            Direction::Down,
        ),
        Request::RevertTo(t) => has_id(g.nodes_seq(), t@) && steps_match(
            g.nodes_seq(),
            plan,
            revert_to_candidates(
                g.parents_seq(),
                g.order_seq(),
                applied,
                id_index(g.nodes_seq(), t@) as usize,
            ),
            Direction::Down,
        ),
        Request::RevertOne(t) => revert_one_ok(
            g.nodes_seq(),
            g.parents_seq(),
            applied,
            t@,
            plan,
        ),
    }
}

/// Reading the applied set or planning against it is entitled to fail: a
/// control-table identity is unregistered, a request target is unregistered,
/// or a single-migration revert is blocked by an applied dependent.
pub open spec fn fetch_error_warranted(
    nodes: Seq<MigrationNode>,
    parents: Seq<Seq<usize>>,
    request: Request,
    ids: Seq<MigrationId>,
) -> bool {
    ||| exists|k: int| 0 <= k < ids.len() && unregistered(nodes, (#[trigger] ids[k])@)
    ||| (request matches Request::ApplyUpTo(t) && unregistered(nodes, t@))
    ||| (request matches Request::RevertTo(t) && unregistered(nodes, t@))
    ||| (request matches Request::RevertOne(t) && unregistered(nodes, t@))
    ||| (request matches Request::RevertOne(t) && exists|flags: Seq<bool>, ti: int, d: int|
        flags_of(nodes, ids, flags) && #[trigger] dependency_blocks(
            nodes,
            parents,
            flags,
            t@,
            nodes[d].id@,
            ti,
            d,
        ))
}

/// A plan mirrors a candidate index sequence, one step per candidate, all in
/// one direction.
pub open spec fn steps_match(
    nodes: Seq<MigrationNode>,
    plan: Seq<Step>,
    cand: Seq<usize>,
    dir: Direction,
) -> bool {
    &&& plan.len() == cand.len()
    &&& forall|k: int|
        0 <= k < plan.len() ==> (#[trigger] plan[k]).node == cand[k] && cand[k] < nodes.len()
            && plan[k].id@ == nodes[cand[k] as int].id@ && plan[k].dir == dir
}

/// Pending nodes, in full order.
pub open spec fn not_applied_pred(applied: Seq<bool>) -> spec_fn(usize) -> bool {
    |i: usize| !applied[i as int]
}

/// Pending ancestors-or-self of the target, in full order.
pub open spec fn upto_pred(parents: Seq<Seq<usize>>, applied: Seq<bool>, t: usize) -> spec_fn(
    usize,
) -> bool {
    |i: usize| ancestor_or_self(parents, t, i) && !applied[i as int]
}

/// Applied nodes.
pub open spec fn applied_pred(applied: Seq<bool>) -> spec_fn(usize) -> bool {
    |i: usize| applied[i as int]
}

/// Applied nodes that are not ancestors-or-self of the target.
pub open spec fn revert_to_pred(parents: Seq<Seq<usize>>, applied: Seq<bool>, t: usize) -> spec_fn(
    usize,
) -> bool {
    |i: usize| applied[i as int] && !ancestor_or_self(parents, t, i)
}

/// Membership in a boolean keep-table.
pub open spec fn keep_pred(keep: Seq<bool>) -> spec_fn(usize) -> bool {
    |i: usize| keep[i as int]
}

/// Candidates of an apply-all request: every pending node, in full order.
pub open spec fn apply_all_candidates(order: Seq<usize>, applied: Seq<bool>) -> Seq<usize> {
    order.filter(not_applied_pred(applied))
}

/// Candidates of an apply-up-to request: pending ancestors-or-self of the
/// target, in full order.
pub open spec fn apply_upto_candidates(
    parents: Seq<Seq<usize>>,
    order: Seq<usize>,
    applied: Seq<bool>,
    t: usize,
) -> Seq<usize> {
    order.filter(upto_pred(parents, applied, t))
}

/// Candidates of a revert-all request: every applied node, in reverse full
/// order.
pub open spec fn revert_all_candidates(order: Seq<usize>, applied: Seq<bool>) -> Seq<usize> {
    order.reverse().filter(applied_pred(applied))
}

/// Candidates of a revert-to request: applied nodes outside the target's
/// ancestors-or-self, in reverse full order.
pub open spec fn revert_to_candidates(
    parents: Seq<Seq<usize>>,
    order: Seq<usize>,
    applied: Seq<bool>,
    t: usize,
) -> Seq<usize> {
    order.reverse().filter(revert_to_pred(parents, applied, t))
}

/// Filtering one more element appends it exactly when the predicate holds.
pub proof fn lemma_filter_push<A>(s: Seq<A>, x: A, pred: spec_fn(A) -> bool)
    ensures
        s.push(x).filter(pred) == if pred(x) {
            s.filter(pred).push(x)
        } else {
            s.filter(pred)
        },
{
    reveal(Seq::filter);
    assert(s.push(x).drop_last() =~= s);
    assert(s.push(x).last() == x);
}

/// Predicates that agree on a sequence's elements filter it identically.
pub proof fn lemma_filter_congruent<A>(s: Seq<A>, p1: spec_fn(A) -> bool, p2: spec_fn(A) -> bool)
    requires
        forall|k: int| 0 <= k < s.len() ==> p1(#[trigger] s[k]) == p2(s[k]),
    ensures
        s.filter(p1) == s.filter(p2),
    decreases s.len(),
{
    reveal(Seq::filter);
    if s.len() > 0 {
        lemma_filter_congruent(s.drop_last(), p1, p2);
    }
}

/// A filter whose predicate rejects every element is empty.
pub proof fn lemma_filter_none<A>(s: Seq<A>, pred: spec_fn(A) -> bool)
    requires
        forall|k: int| 0 <= k < s.len() ==> !pred(#[trigger] s[k]),
    ensures
        s.filter(pred) == Seq::<A>::empty(),
    decreases s.len(),
{
    reveal(Seq::filter);
    if s.len() > 0 {
        lemma_filter_none(s.drop_last(), pred);
    }
}

/// A filter whose predicate accepts every element is the sequence itself.
pub proof fn lemma_filter_all<A>(s: Seq<A>, pred: spec_fn(A) -> bool)
    requires
        forall|k: int| 0 <= k < s.len() ==> pred(#[trigger] s[k]),
    ensures
        s.filter(pred) == s,
    decreases s.len(),
{
    reveal(Seq::filter);
    if s.len() > 0 {
        lemma_filter_all(s.drop_last(), pred);
        assert(s.drop_last().filter(pred).push(s.last()) =~= s);
    }
}

/// An ancestor-or-self walk extends along one more parent edge.
proof fn lemma_anc_extend(parents: Seq<Seq<usize>>, t: usize, x: usize, p: usize)
    requires
        ancestor_or_self(parents, t, x),
        p < parents.len(),
        parents[x as int].contains(p),
    ensures
        ancestor_or_self(parents, t, p),
{
    reveal(ancestor_or_self);
    let path = choose|path: Seq<usize>|
        is_parent_path(parents, path) && path.len() >= 1 && path[0] == t && path.last() == x;
    let path2 = path.push(p);
    assert(path2.last() == p);
    assert(path2[0] == t);
    assert(is_parent_path(parents, path2)) by {
        assert forall|i: int| 0 <= i < path2.len() - 1 implies parents[#[trigger] path2[i] as int].contains(
            path2[i + 1],
        ) by {
            if i < path.len() - 1 {
                assert(path2[i] == path[i]);
                assert(path2[i + 1] == path[i + 1]);
            } else {
                assert(path2[i] == path.last());
                assert(path2[i + 1] == p);
            }
        }
    }
}

/// Every node is an ancestor-or-self of itself.
proof fn lemma_anc_refl(parents: Seq<Seq<usize>>, t: usize)
    requires
        t < parents.len(),
    ensures
        ancestor_or_self(parents, t, t),
{
    reveal(ancestor_or_self);
    let path = seq![t];
    assert(path.len() == 1 && path[0] == t && path.last() == t);
    assert(is_parent_path(parents, path));
}

/// A marking that holds the walk's start and is closed under parent edges
/// covers every node of the walk.
proof fn lemma_closed_marks_cover(
    parents: Seq<Seq<usize>>,
    marked: Seq<bool>,
    path: Seq<usize>,
    i: int,
)
    requires
        marked.len() == parents.len(),
        is_parent_path(parents, path),
        path.len() >= 1,
        marked[path[0] as int],
        forall|x: int, p: usize|
            0 <= x < parents.len() && marked[x] && #[trigger] parents[x].contains(p) ==> marked[p as int],
        0 <= i < path.len(),
    ensures
        marked[path[i] as int],
    decreases i,
{
    if i > 0 {
        lemma_closed_marks_cover(parents, marked, path, i - 1);
        assert(parents[path[i - 1] as int].contains(path[i]));
    }
}

/// Mark exactly the ancestors-or-self of node `t`, by one pass over the full
/// order from last position to first.
fn mark_ancestors(g: &Graph, t: usize) -> (marked: Vec<bool>)
    requires
        g.wf(),
        t < g.nodes_seq().len(),
    ensures
        marked@.len() == g.nodes_seq().len(),
        forall|x: int|
            0 <= x < marked@.len() ==> (marked@[x] <==> ancestor_or_self(
                g.parents_seq(),
                t,
                x as usize,
            )),
{
    let ghost rows = g.parents_seq();
    let ghost order = g.order_seq();
    let n = g.node_count();
    let mut marked: Vec<bool> = Vec::new();
    let mut i0: usize = 0;
    while i0 < n
        invariant
            i0 <= n,
            marked@.len() == i0,
            forall|k: int| 0 <= k < i0 ==> !marked@[k],
        decreases n - i0,
    {
        marked.push(false);
        i0 = i0 + 1;
    }
    marked.set(t, true);
    proof {
        lemma_anc_refl(rows, t);
    }
    let mut k = n;
    while k > 0
        invariant
            g.wf(),
            rows == g.parents_seq(),
            order == g.order_seq(),
            n == g.nodes_seq().len(),
            k <= n,
            marked@.len() == n,
            marked@[t as int],
            t < n,
            forall|x: int|
                0 <= x < n && marked@[x] ==> ancestor_or_self(rows, t, x as usize),
            forall|j: int, p: usize|
                k <= j < n && marked@[order[j] as int] && #[trigger] rows[order[j] as int].contains(p)
                    ==> marked@[p as int],
        decreases k,
    {
        k = k - 1;
        let node = g.full_order()[k];
        proof {
            assert(order[k as int] == node);
            assert(node < n);
        }
        if marked[node] {
            let ghost m0 = marked@;
            let row = &g.parents_ix[node];
            proof {
                assert(row@ == rows[node as int]);
            }
            let m = row.len();
            let mut pi: usize = 0;
            while pi < m
                invariant
                    g.wf(),
                    rows == g.parents_seq(),
                    order == g.order_seq(),
                    n == g.nodes_seq().len(),
                    k < n,
                    t < n,
                    node == order[k as int],
                    node < n,
                    row@ == rows[node as int],
                    m == row@.len(),
                    pi <= m,
                    marked@.len() == n,
                    m0.len() == n,
                    m0[order[k as int] as int],
                    marked@[t as int],
                    forall|x: int| 0 <= x < n && m0[x] ==> marked@[x],
                    forall|x: int|
                        0 <= x < n && marked@[x] ==> (m0[x] || order.take(k as int).contains(
                            x as usize,
                        )),
                    forall|x: int|
                        0 <= x < n && marked@[x] ==> ancestor_or_self(rows, t, x as usize),
                    forall|j: int, p: usize|
                        k < j < n && m0[order[j] as int] && #[trigger] rows[order[j] as int].contains(p)
                            ==> m0[p as int],
                    forall|jj: int| 0 <= jj < pi ==> marked@[#[trigger] row@[jj] as int],
                decreases m - pi,
            {
                let p = row[pi];
                proof {
                    assert(rows[node as int][pi as int] == p);
                    assert(rows[node as int].contains(p));
                    assert(p < n);
                    assert(ancestor_or_self(rows, t, node));
                    lemma_anc_extend(rows, t, node, p);
                    assert(order.take(k as int).contains(p));
                }
                marked.set(p, true);
                pi = pi + 1;
            }
            proof {
                assert forall|j: int, p: usize|
                    k <= j < n && marked@[order[j] as int] && #[trigger] rows[order[j] as int].contains(p)
                    implies marked@[p as int] by {
                    if j == k {
                        let jj = choose|jj: int|
                            0 <= jj < rows[node as int].len() && rows[node as int][jj] == p;
                        assert(row@[jj] == p);
                        assert(marked@[p as int]);
                    } else {
                        if !m0[order[j] as int] {
                            assert(order.take(k as int).contains(order[j] as usize));
                            let jx = choose|jx: int|
                                0 <= jx < k && order.take(k as int)[jx] == order[j] as usize;
                            assert(order[jx] == order[j]);
                            assert(false);
                        }
                        assert(m0[p as int]);
                    }
                }
            }
        }
    }
    proof {
        assert forall|x: int|
            0 <= x < marked@.len() implies (marked@[x] <==> ancestor_or_self(
                rows,
                t,
                x as usize,
            )) by {
            if ancestor_or_self(rows, t, x as usize) && !marked@[x] {
                reveal(ancestor_or_self);
                let path = choose|path: Seq<usize>|
                    is_parent_path(rows, path) && path.len() >= 1 && path[0] == t && path.last()
                        == x as usize;
                assert(forall|y: int, p: usize|
                    0 <= y < rows.len() && marked@[y] && #[trigger] rows[y].contains(p)
                        ==> marked@[p as int]) by {
                    assert forall|y: int, p: usize|
                        0 <= y < rows.len() && marked@[y] && #[trigger] rows[y].contains(p)
                        implies marked@[p as int] by {
                        lemma_perm_contains(order, n as nat, y as usize);
                        let j = choose|j: int| 0 <= j < order.len() && order[j] == y as usize;
                        assert(rows[order[j] as int].contains(p));
                    }
                }
                lemma_closed_marks_cover(rows, marked@, path, path.len() - 1);
                assert(false);
            }
        }
    }
    marked
}

/// Map the currently applied identities onto per-node flags; an identity
/// absent from the graph is a state inconsistency, surfaced, never dropped.
pub fn applied_flags(g: &Graph, recorded: &Vec<MigrationId>) -> (r: Result<Vec<bool>, Error>)
    requires
        g.wf(),
    ensures
        match r {
            Ok(flags) => flags_of(g.nodes_seq(), recorded@, flags@),
            Err(e) => match e {
                Error::StateInconsistency(id) => {
                    &&& exists|k: int| 0 <= k < recorded@.len() && #[trigger] recorded@[k]@ == id@
                    &&& unregistered(g.nodes_seq(), id@)
                },
                _ => false,
            },
        },
{
    let n = g.node_count();
    let mut flags: Vec<bool> = Vec::new();
    let mut i0: usize = 0;
    while i0 < n
        invariant
            i0 <= n,
            flags@.len() == i0,
            forall|k: int| 0 <= k < i0 ==> !flags@[k],
        decreases n - i0,
    {
        flags.push(false);
        i0 = i0 + 1;
    }
    let m = recorded.len();
    let mut k: usize = 0;
    while k < m
        invariant
            g.wf(),
            k <= m,
            m == recorded@.len(),
            n == g.nodes_seq().len(),
            flags@.len() == n,
            forall|i: int|
                0 <= i < n ==> (flags@[i] <==> exists|kk: int|
                    0 <= kk < k && #[trigger] recorded@[kk]@ == g.nodes_seq()[i].id@),
        decreases m - k,
    {
        match g.index_of(&recorded[k]) {
            Some(ix) => {
                proof {
                    assert(g.nodes_seq()[ix as int].id@ == recorded@[k as int]@);
                }
                let ghost old_flags = flags@;
                flags.set(ix, true);
                proof {
                    assert forall|i: int|
                        0 <= i < n implies (flags@[i] <==> exists|kk: int|
                            0 <= kk < k + 1 && #[trigger] recorded@[kk]@ == g.nodes_seq()[i].id@) by {
                        if i == ix {
                            assert(recorded@[k as int]@ == g.nodes_seq()[i].id@);
                        } else {
                            if recorded@[k as int]@ == g.nodes_seq()[i].id@ {
                                assert(g.nodes_seq()[i].id@ == g.nodes_seq()[ix as int].id@);
                                assert(false);
                            }
                            if old_flags[i] {
                                let kk = choose|kk: int|
                                    0 <= kk < k && #[trigger] recorded@[kk]@ == g.nodes_seq()[i].id@;
                                assert(recorded@[kk]@ == g.nodes_seq()[i].id@);
                            }
                        }
                    }
                }
            },
            None => {
                return Err(Error::StateInconsistency(recorded[k].clone()));
            },
        }
        k = k + 1;
    }
    Ok(flags)
}

/// Collect the elements of `xs` whose keep-flag is set, preserving order.
fn collect_filtered(xs: &Vec<usize>, keep: &Vec<bool>) -> (r: Vec<usize>)
    requires
        forall|k: int| 0 <= k < xs@.len() ==> (#[trigger] xs@[k]) < keep@.len(),
    ensures
        r@ == xs@.filter(keep_pred(keep@)),
        forall|k: int| 0 <= k < r@.len() ==> (#[trigger] r@[k]) < keep@.len(),
{
    let ghost pred = keep_pred(keep@);
    let mut r: Vec<usize> = Vec::new();
    proof {
        reveal(Seq::filter);
        assert(xs@.take(0) =~= Seq::<usize>::empty());
        assert(r@ =~= xs@.take(0).filter(pred));
    }
    let n = xs.len();
    let mut k: usize = 0;
    while k < n
        invariant
            k <= n,
            n == xs@.len(),
            pred == keep_pred(keep@),
            forall|kk: int| 0 <= kk < xs@.len() ==> (#[trigger] xs@[kk]) < keep@.len(),
            r@ == xs@.take(k as int).filter(pred),
            forall|kk: int| 0 <= kk < r@.len() ==> (#[trigger] r@[kk]) < keep@.len(),
        decreases n - k,
    {
        let x = xs[k];
        proof {
            lemma_filter_push(xs@.take(k as int), xs@[k as int], pred);
            assert(xs@.take(k as int + 1) =~= xs@.take(k as int).push(xs@[k as int]));
        }
        if keep[x] {
            r.push(x);
        }
        k = k + 1;
    }
    proof {
        assert(xs@.take(n as int) =~= xs@);
    }
    r
}

/// The full order, reversed.
fn reversed(xs: &Vec<usize>) -> (r: Vec<usize>)
    ensures
        r@ == xs@.reverse(),
{
    let n = xs.len();
    let mut r: Vec<usize> = Vec::new();
    let mut k: usize = 0;
    while k < n
        invariant
            k <= n,
            n == xs@.len(),
            r@.len() == k,
            forall|j: int| 0 <= j < k ==> #[trigger] r@[j] == xs@[n - 1 - j],
        decreases n - k,
    {
        let x = xs[n - 1 - k];
        r.push(x);
        k = k + 1;
    }
    proof {
        assert(r@ =~= xs@.reverse());
    }
    r
}

/// Build one step per candidate index, all in one direction.
fn steps_from(g: &Graph, cand: &Vec<usize>, dir: Direction) -> (r: Vec<Step>)
    requires
        g.wf(),
        forall|k: int| 0 <= k < cand@.len() ==> (#[trigger] cand@[k]) < g.nodes_seq().len(),
    ensures
        steps_match(g.nodes_seq(), r@, cand@, dir),
{
    let n = cand.len();
    let mut r: Vec<Step> = Vec::new();
    let mut k: usize = 0;
    while k < n
        invariant
            g.wf(),
            k <= n,
            n == cand@.len(),
            forall|kk: int| 0 <= kk < cand@.len() ==> (#[trigger] cand@[kk]) < g.nodes_seq().len(),
            steps_match(g.nodes_seq(), r@, cand@.take(k as int), dir),
        decreases n - k,
    {
        let ix = cand[k];
        let id = g.node_at(ix).id.clone();
        r.push(Step { node: ix, id, dir });
        k = k + 1;
    }
    proof {
        assert(cand@.take(n as int) =~= cand@);
    }
    r
}

/// Find some applied migration other than `ti` that transitively depends on
/// `ti`, if one exists.
fn find_applied_dependent(g: &Graph, applied: &Vec<bool>, ti: usize) -> (r: Option<usize>)
    requires
        g.wf(),
        applied@.len() == g.nodes_seq().len(),
        ti < g.nodes_seq().len(),
    ensures
        match r {
            Some(d) => d < g.nodes_seq().len() && applied@[d as int] && d != ti
                && ancestor_or_self(g.parents_seq(), d, ti),
            None => no_applied_dependent(g.nodes_seq(), g.parents_seq(), applied@, ti),
        },
{
    let n = g.node_count();
    let mut d: usize = 0;
    while d < n
        invariant
            g.wf(),
            d <= n,
            n == g.nodes_seq().len(),
            n == applied@.len(),
            ti < n,
            forall|dd: int|
                0 <= dd < d && applied@[dd] && dd != ti ==> !ancestor_or_self(
                    g.parents_seq(),
                    dd as usize,
                    ti,
                ),
        decreases n - d,
    {
        if applied[d] && d != ti {
            let marked = mark_ancestors(g, d);
            if marked[ti] {
                return Some(d);
            }
        }
        d = d + 1;
    }
    None
}


/// Plan an apply-all request: every pending node, in full order, direction
/// up.
pub fn plan_apply_all(g: &Graph, applied: &Vec<bool>) -> (plan: Vec<Step>)
    requires
        g.wf(),
        applied@.len() == g.nodes_seq().len(),
    ensures
        steps_match(
            g.nodes_seq(),
            plan@,
            apply_all_candidates(g.order_seq(), applied@),
            Direction::Up,
        ),
{
    let n = g.node_count();
    let mut keep: Vec<bool> = Vec::new();
    let mut i: usize = 0;
    while i < n
        invariant
            i <= n,
            n == applied@.len(),
            keep@.len() == i,
            forall|j: int| 0 <= j < i ==> #[trigger] keep@[j] == !applied@[j],
        decreases n - i,
    {
        let a = applied[i];
        keep.push(!a);
        i = i + 1;
    }
    let cand = collect_filtered(g.full_order(), &keep);
    proof {
        lemma_filter_congruent(g.order_seq(), keep_pred(keep@), not_applied_pred(applied@));
    }
    steps_from(g, &cand, Direction::Up)
}

/// Plan an apply-up-to request: the target's pending ancestors-or-self, in
/// full order, direction up; the target must be registered.
pub fn plan_apply_upto(g: &Graph, applied: &Vec<bool>, target: &MigrationId) -> (r: Result<
    Vec<Step>,
    Error,
>)
    requires
        g.wf(),
        applied@.len() == g.nodes_seq().len(),
    ensures
        r matches Ok(plan) ==> has_id(g.nodes_seq(), target@) && steps_match(
            g.nodes_seq(),
            plan@,
            apply_upto_candidates(
                g.parents_seq(),
                g.order_seq(),
                applied@,
                id_index(g.nodes_seq(), target@) as usize,
            ),
            Direction::Up,
        ),
        r matches Err(e) ==> e matches Error::UnknownTarget(u) && u@ == target@ && unregistered(
            g.nodes_seq(),
            target@,
        ),
{
    let n = g.node_count();
    match g.index_of(target) {
        None => Err(Error::UnknownTarget(target.clone())),
        Some(ti) => {
            proof {
                lemma_id_index_unique(g.nodes_seq(), target@, ti as int);
            }
            let marked = mark_ancestors(g, ti);
            let mut keep: Vec<bool> = Vec::new();
            let mut i: usize = 0;
            while i < n
                invariant
                    i <= n,
                    n == applied@.len(),
                    n == marked@.len(),
                    keep@.len() == i,
                    forall|j: int|
                        0 <= j < i ==> #[trigger] keep@[j] == (marked@[j] && !applied@[j]),
                decreases n - i,
            {
                let a = applied[i];
                let mk = marked[i];
                keep.push(mk && !a);
                i = i + 1;
            }
            let cand = collect_filtered(g.full_order(), &keep);
            proof {
                lemma_filter_congruent(
                    g.order_seq(),
                    keep_pred(keep@),
                    upto_pred(g.parents_seq(), applied@, ti),
                );
            }
            Ok(steps_from(g, &cand, Direction::Up))
        },
    }
}

/// Plan a revert-all request: every applied node, in reverse full order,
/// direction down.
pub fn plan_revert_all(g: &Graph, applied: &Vec<bool>) -> (plan: Vec<Step>)
    requires
        g.wf(),
        applied@.len() == g.nodes_seq().len(),
    ensures
        steps_match(
            g.nodes_seq(),
            plan@,
            revert_all_candidates(g.order_seq(), applied@),
            Direction::Down,
        ),
{
    let n = g.node_count();
    let mut keep: Vec<bool> = Vec::new();
    let mut i: usize = 0;
    while i < n
        invariant
            i <= n,
            n == applied@.len(),
            keep@.len() == i,
            forall|j: int| 0 <= j < i ==> #[trigger] keep@[j] == applied@[j],
        decreases n - i,
    {
        let a = applied[i];
        keep.push(a);
        i = i + 1;
    }
    let rev = reversed(g.full_order());
    proof {
        assert forall|k: int| 0 <= k < rev@.len() implies (#[trigger] rev@[k]) < keep@.len() by {
            assert(rev@[k] == g.order_seq()[rev@.len() - 1 - k]);
        }
    }
    let cand = collect_filtered(&rev, &keep);
    proof {
        lemma_filter_congruent(g.order_seq().reverse(), keep_pred(keep@), applied_pred(applied@));
    }
    steps_from(g, &cand, Direction::Down)
}

/// Plan a revert-to request: applied nodes outside the target's
/// ancestors-or-self, in reverse full order, direction down; the target must
/// be registered.
pub fn plan_revert_to(g: &Graph, applied: &Vec<bool>, target: &MigrationId) -> (r: Result<
    Vec<Step>,
    Error,
>)
    requires
        g.wf(),
        applied@.len() == g.nodes_seq().len(),
    ensures
        r matches Ok(plan) ==> has_id(g.nodes_seq(), target@) && steps_match(
            g.nodes_seq(),
            plan@,
            revert_to_candidates(
                g.parents_seq(),
                g.order_seq(),
                applied@,
                id_index(g.nodes_seq(), target@) as usize,
            ),
            Direction::Down,
        ),
        r matches Err(e) ==> e matches Error::UnknownTarget(u) && u@ == target@ && unregistered(
            g.nodes_seq(),
            target@,
        ),
{
    let n = g.node_count();
    match g.index_of(target) {
        None => Err(Error::UnknownTarget(target.clone())),
        Some(ti) => {
            proof {
                lemma_id_index_unique(g.nodes_seq(), target@, ti as int);
            }
            let marked = mark_ancestors(g, ti);
            let mut keep: Vec<bool> = Vec::new();
            let mut i: usize = 0;
            while i < n
                invariant
                    i <= n,
                    n == applied@.len(),
                    n == marked@.len(),
                    keep@.len() == i,
                    forall|j: int|
                        0 <= j < i ==> #[trigger] keep@[j] == (applied@[j] && !marked@[j]),
                decreases n - i,
            {
                let a = applied[i];
                let mk = marked[i];
                keep.push(a && !mk);
                i = i + 1;
            }
            let rev = reversed(g.full_order());
            proof {
                assert forall|k: int| 0 <= k < rev@.len() implies (#[trigger] rev@[k])
                    < keep@.len() by {
                    assert(rev@[k] == g.order_seq()[rev@.len() - 1 - k]);
                }
            }
            let cand = collect_filtered(&rev, &keep);
            proof {
                lemma_filter_congruent(
                    g.order_seq().reverse(),
                    keep_pred(keep@),
                    revert_to_pred(g.parents_seq(), applied@, ti),
                );
            }
            Ok(steps_from(g, &cand, Direction::Down))
        },
    }
}

/// Plan a revert of exactly the named migration: a single down step when it
/// is applied and nothing applied depends on it; empty when it is not
/// applied; a dependency error naming an applied dependent otherwise.
#[verifier::spinoff_prover]
#[verifier::rlimit(100)]
pub fn plan_revert_one(g: &Graph, applied: &Vec<bool>, target: &MigrationId) -> (r: Result<
    Vec<Step>,
    Error,
>)
    requires
        g.wf(),
        applied@.len() == g.nodes_seq().len(),
    ensures
        r matches Ok(plan) ==> revert_one_ok(
            g.nodes_seq(),
            g.parents_seq(),
            applied@,
            target@,
            plan@,
        ),
        r matches Err(e) ==> ({
            ||| (e matches Error::UnknownTarget(u) && u@ == target@ && unregistered(
                g.nodes_seq(),
                target@,
            ))
            ||| (e matches Error::Dependency { target: bt, dependent } && bt@ == target@
                && dependency_blocks(
                g.nodes_seq(),
                g.parents_seq(),
                applied@,
                target@,
                dependent@,
                id_index(g.nodes_seq(), target@),
                id_index(g.nodes_seq(), dependent@),
            ))
        }),
{
    match g.index_of(target) {
        None => Err(Error::UnknownTarget(target.clone())),
        Some(ti) => {
            proof {
                lemma_id_index_unique(g.nodes_seq(), target@, ti as int);
            }
            if !applied[ti] {
                let empty_plan: Vec<Step> = Vec::new();
                proof {
                    reveal(revert_one_ok);
                    assert(!applied@[id_index(g.nodes_seq(), target@)]);
                    assert(revert_one_ok(
                        g.nodes_seq(),
                        g.parents_seq(),
                        applied@,
                        target@,
                        empty_plan@,
                    ));
                }
                Ok(empty_plan)
            } else {
                match find_applied_dependent(g, applied, ti) {
                    Some(d) => {
                        let dep_id = g.node_at(d).id.clone();
                        proof {
                            lemma_id_index_unique(g.nodes_seq(), dep_id@, d as int);
                            assert(dependency_blocks(
                                g.nodes_seq(),
                                g.parents_seq(),
                                applied@,
                                target@,
                                dep_id@,
                                id_index(g.nodes_seq(), target@),
                                id_index(g.nodes_seq(), dep_id@),
                            ));
                        }
                        Err(Error::Dependency { target: target.clone(), dependent: dep_id })
                    },
                    None => {
                        let id = g.node_at(ti).id.clone();
                        let mut plan: Vec<Step> = Vec::new();
                        plan.push(Step { node: ti, id, dir: Direction::Down });
                        proof {
                            reveal(revert_one_ok);
                            assert(id_index(g.nodes_seq(), target@) as usize == ti);
                            assert(no_applied_dependent(
                                g.nodes_seq(),
                                g.parents_seq(),
                                applied@,
                                id_index(g.nodes_seq(), target@) as usize,
                            ));
                            assert(revert_one_ok(
                                g.nodes_seq(),
                                g.parents_seq(),
                                applied@,
                                target@,
                                plan@,
                            ));
                        }
                        Ok(plan)
                    },
                }
            }
        },
    }
}

/// Compute the ordered execution plan for a request, against the applied
/// flags read from the control table. An empty candidate set yields an empty
/// plan, a legitimate "nothing to do" result.
pub fn compute_plan(g: &Graph, applied: &Vec<bool>, request: &Request) -> (r: Result<
    Vec<Step>,
    Error,
>)
    requires
        g.wf(),
        applied@.len() == g.nodes_seq().len(),
    ensures
        *request matches Request::ApplyAll ==> r matches Ok(plan) && steps_match(
            g.nodes_seq(),
            plan@,
            apply_all_candidates(g.order_seq(), applied@),
            Direction::Up,
        ),
        *request matches Request::RevertAll ==> r matches Ok(plan) && steps_match(
            g.nodes_seq(),
            plan@,
            revert_all_candidates(g.order_seq(), applied@),
            Direction::Down,
        ),
        *request matches Request::ApplyUpTo(t) ==> ((r matches Ok(plan) ==> has_id(
            g.nodes_seq(),
            t@,
        ) && steps_match(
            g.nodes_seq(),
            plan@,
            apply_upto_candidates(
                g.parents_seq(),
                g.order_seq(),
                applied@,
                id_index(g.nodes_seq(), t@) as usize,
            ),
            Direction::Up,
        )) && (r matches Err(e) ==> e matches Error::UnknownTarget(u) && u@ == t@
            && unregistered(g.nodes_seq(), t@))),
        *request matches Request::RevertTo(t) ==> ((r matches Ok(plan) ==> has_id(
            g.nodes_seq(),
            t@,
        ) && steps_match(
            g.nodes_seq(),
            plan@,
            revert_to_candidates(
                g.parents_seq(),
                g.order_seq(),
                applied@,
                id_index(g.nodes_seq(), t@) as usize,
            ),
            Direction::Down,
        )) && (r matches Err(e) ==> e matches Error::UnknownTarget(u) && u@ == t@
            && unregistered(g.nodes_seq(), t@))),
        *request matches Request::RevertOne(t) ==> ((r matches Ok(plan) ==> revert_one_ok(
            g.nodes_seq(),
            g.parents_seq(),
            applied@,
            t@,
            plan@,
        )) && (r matches Err(e) ==> ({
            ||| (e matches Error::UnknownTarget(u) && u@ == t@ && unregistered(
                g.nodes_seq(),
                t@,
            ))
            ||| (e matches Error::Dependency { target, dependent } && target@ == t@
                && dependency_blocks(
                g.nodes_seq(),
                g.parents_seq(),
                applied@,
                t@,
                dependent@,
                id_index(g.nodes_seq(), t@),
                id_index(g.nodes_seq(), dependent@),
            ))
        }))),

{
    match &*request {
        Request::ApplyAll => Ok(plan_apply_all(g, applied)),
        Request::ApplyUpTo(t) => plan_apply_upto(g, applied, t),
        Request::RevertAll => Ok(plan_revert_all(g, applied)),
        Request::RevertTo(t) => plan_revert_to(g, applied, t),
        Request::RevertOne(t) => plan_revert_one(g, applied, t),
    }
}

} // verus!
