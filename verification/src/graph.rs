//! Dependency-graph construction and validation. A registered collection of
//! migration nodes is validated into an acyclic graph holding, per node, the
//! indices of its parents and a full topological order with lexical
//! tie-breaks.

use vstd::prelude::*;
use vstd::set_lib::{lemma_int_range, lemma_len_subset, set_int_range};
use crate::error::Error;
use crate::migration::{MigrationId, MigrationNode};
use crate::order::{id_lt, lemma_id_lt_irrefl, lemma_id_lt_trans, spec_id_lt};

verus! {

broadcast use vstd::seq_lib::group_seq_properties;

/// No two nodes share an identity.
pub open spec fn distinct_ids(nodes: Seq<MigrationNode>) -> bool {
    forall|i: int, j: int|
        0 <= i < j < nodes.len() ==> nodes[i].id@ != nodes[j].id@
}

/// Index rows `parents` mirror the nodes' declared parent identities.
pub open spec fn parents_match(nodes: Seq<MigrationNode>, parents: Seq<Seq<usize>>) -> bool {
    &&& parents.len() == nodes.len()
    &&& forall|i: int| 0 <= i < nodes.len() ==> #[trigger] parents[i].len() == nodes[i].parents@.len()
    &&& forall|i: int, j: int|
        0 <= i < nodes.len() && 0 <= j < parents[i].len()
            ==> (#[trigger] parents[i][j]) < nodes.len()
                && nodes[parents[i][j] as int].id@ == nodes[i].parents@[j]@
}

/// Every entry of every row is a valid node index.
pub open spec fn rows_valid(parents: Seq<Seq<usize>>) -> bool {
    forall|i: int, j: int|
        0 <= i < parents.len() && 0 <= j < parents[i].len()
            ==> (#[trigger] parents[i][j]) < parents.len()
}

/// `order` lists `n` distinct valid indices.
pub open spec fn is_perm(order: Seq<usize>, n: nat) -> bool {
    &&& order.len() == n
    &&& order.no_duplicates()
    &&& forall|k: int| 0 <= k < order.len() ==> (#[trigger] order[k]) < n
}

/// Every node's parents appear in `order` strictly before the node itself.
pub open spec fn respects_parents(parents: Seq<Seq<usize>>, order: Seq<usize>) -> bool {
    forall|k: int, p: usize|
        0 <= k < order.len() && order[k] < parents.len() && #[trigger] parents[order[k] as int].contains(
            p,
        ) ==> order.take(k).contains(p)
}

/// Every parent in the row is already placed.
pub open spec fn parents_all_placed(row: Seq<usize>, placed: Seq<bool>) -> bool {
    forall|j: int| 0 <= j < row.len() ==> placed[#[trigger] row[j] as int]
}

/// Node `i` is eligible at position `k`: not yet ordered, and all of its
/// parents sit in the order's first `k` positions.
pub open spec fn eligible_at(parents: Seq<Seq<usize>>, order: Seq<usize>, k: int, i: usize) -> bool {
    &&& i < parents.len()
    &&& !order.take(k).contains(i)
    &&& forall|p: usize| #[trigger] parents[i as int].contains(p) ==> order.take(k).contains(p)
}

/// The order breaks ties lexically: each position holds a least eligible node
/// under `spec_id_lt`, so the full order is reproducible across runs and
/// hosts.
pub open spec fn lex_tie_break(
    nodes: Seq<MigrationNode>,
    parents: Seq<Seq<usize>>,
    order: Seq<usize>,
) -> bool {
    forall|k: int, i: usize|
        0 <= k < order.len() && #[trigger] eligible_at(parents, order, k, i) ==> !spec_id_lt(
            nodes[i as int].id@,
            nodes[order[k] as int].id@,
        )
}

/// `p` is a walk over valid indices in which each element is followed by one
/// of its parents.
pub open spec fn is_parent_path(parents: Seq<Seq<usize>>, p: Seq<usize>) -> bool {
    &&& forall|i: int| 0 <= i < p.len() ==> (#[trigger] p[i]) < parents.len()
    &&& forall|i: int| 0 <= i < p.len() - 1 ==> parents[#[trigger] p[i] as int].contains(p[i + 1])
}

/// No registered node carries the identity.
pub open spec fn unregistered(nodes: Seq<MigrationNode>, id: (Seq<char>, Seq<char>)) -> bool {
    forall|k: int| 0 <= k < nodes.len() ==> nodes[k].id@ != id
}

/// Some registered node carries the identity.
#[verifier::opaque]
pub open spec fn has_id(nodes: Seq<MigrationNode>, id: (Seq<char>, Seq<char>)) -> bool {
    exists|k: int| 0 <= k < nodes.len() && #[trigger] nodes[k].id@ == id
}

/// Index of the node carrying the identity; meaningful when identities are
/// distinct and the identity is registered.
pub open spec fn id_index(nodes: Seq<MigrationNode>, id: (Seq<char>, Seq<char>)) -> int {
    choose|k: int| 0 <= k < nodes.len() && #[trigger] nodes[k].id@ == id
}

/// With distinct identities, the index of a registered identity is the one
/// node that carries it.
pub proof fn lemma_id_index_unique(nodes: Seq<MigrationNode>, id: (Seq<char>, Seq<char>), k: int)
    requires
        distinct_ids(nodes),
        0 <= k < nodes.len(),
        nodes[k].id@ == id,
    ensures
        has_id(nodes, id),
        id_index(nodes, id) == k,
{
    reveal(has_id);
    assert(has_id(nodes, id));
    let k2 = id_index(nodes, id);
    assert(0 <= k2 < nodes.len() && nodes[k2].id@ == id);
    if k2 != k {
        if k2 < k {
            assert(nodes[k2].id@ != nodes[k].id@);
        } else {
            assert(nodes[k].id@ != nodes[k2].id@);
        }
    }
}

/// `a` is `d` itself or a migration that `d` transitively depends on: some
/// parent walk leads from `d` to `a`.
#[verifier::opaque]
pub open spec fn ancestor_or_self(parents: Seq<Seq<usize>>, d: usize, a: usize) -> bool {
    exists|p: Seq<usize>|
        is_parent_path(parents, p) && p.len() >= 1 && p[0] == d && p.last() == a
}

/// A non-empty parent walk that closes on itself.
pub open spec fn is_cycle(parents: Seq<Seq<usize>>, c: Seq<usize>) -> bool {
    &&& c.len() >= 1
    &&& is_parent_path(parents, c)
    &&& parents[c.last() as int].contains(c[0])
}

/// A walk over the nodes in which each step goes from a node to one of the
/// nodes named by its declared parent identities.
pub open spec fn id_step(nodes: Seq<MigrationNode>, x: int, y: int) -> bool {
    &&& 0 <= x < nodes.len()
    &&& 0 <= y < nodes.len()
    &&& exists|j: int| 0 <= j < nodes[x].parents@.len() && #[trigger] nodes[x].parents@[j]@ == nodes[y].id@
}

/// A non-empty walk along declared parent identities that closes on itself.
pub open spec fn is_id_cycle(nodes: Seq<MigrationNode>, c: Seq<usize>) -> bool {
    &&& c.len() >= 1
    &&& forall|i: int| 0 <= i < c.len() ==> (#[trigger] c[i]) < nodes.len()
    &&& forall|i: int| 0 <= i < c.len() - 1 ==> id_step(nodes, #[trigger] c[i] as int, c[i + 1] as int)
    &&& id_step(nodes, c.last() as int, c[0] as int)
}

/// Some dependency cycle exists among the declared parent identities.
pub open spec fn has_id_cycle(nodes: Seq<MigrationNode>) -> bool {
    exists|c: Seq<usize>| is_id_cycle(nodes, c)
}

/// Position of `x` in `order`; meaningful when `order` contains `x` exactly
/// once.
pub open spec fn pos_of(order: Seq<usize>, x: usize) -> int {
    choose|k: int| 0 <= k < order.len() && order[k] == x
}

/// A sequence of distinct values below `n` has at most `n` elements.
pub proof fn lemma_distinct_bounded_len(s: Seq<usize>, n: nat)
    requires
        s.no_duplicates(),
        forall|k: int| 0 <= k < s.len() ==> (#[trigger] s[k]) < n,
    ensures
        s.len() <= n,
{
    broadcast use vstd::set::group_set_axioms;
    broadcast use vstd::seq_lib::seq_to_set_is_finite;

    let t = s.map_values(|x: usize| x as int);
    assert(t.no_duplicates());
    t.unique_seq_to_set();
    lemma_int_range(0, n as int);
    assert(t.to_set().subset_of(set_int_range(0, n as int))) by {
        assert forall|x: int| t.to_set().contains(x) implies set_int_range(0, n as int).contains(x) by {
            let k = choose|k: int| 0 <= k < t.len() && t[k] == x;
            assert(s[k] < n);
        }
    }
    lemma_len_subset(t.to_set(), set_int_range(0, n as int));
}

/// A full permutation of `0 .. n` contains every index below `n`.
pub proof fn lemma_perm_contains(order: Seq<usize>, n: nat, x: usize)
    requires
        is_perm(order, n),
        x < n,
    ensures
        order.contains(x),
{
    broadcast use vstd::set::group_set_axioms;
    broadcast use vstd::seq_lib::seq_to_set_is_finite;

    if !order.contains(x) {
        let t = order.map_values(|y: usize| y as int);
        assert(t.no_duplicates());
        t.unique_seq_to_set();
        lemma_int_range(0, n as int);
        let small = set_int_range(0, n as int).remove(x as int);
        assert(t.to_set().subset_of(small)) by {
            assert forall|y: int| t.to_set().contains(y) implies small.contains(y) by {
                let k = choose|k: int| 0 <= k < t.len() && t[k] == y;
                assert(order[k] < n);
                assert(order[k] != x);
            }
        }
        lemma_len_subset(t.to_set(), small);
        assert(small.len() == n - 1);
        assert(false);
    }
}

/// In an order respecting parents, a parent sits strictly before its child.
pub proof fn lemma_parent_pos_lt(parents: Seq<Seq<usize>>, order: Seq<usize>, x: usize, y: usize)
    requires
        is_perm(order, parents.len()),
        respects_parents(parents, order),
        x < parents.len(),
        parents[x as int].contains(y),
    ensures
        y < parents.len(),
        0 <= pos_of(order, y) < pos_of(order, x) < order.len(),
        order[pos_of(order, x)] == x,
        order[pos_of(order, y)] == y,
{
    lemma_perm_contains(order, parents.len(), x);
    let k = pos_of(order, x);
    assert(0 <= k < order.len() && order[k] == x);
    assert(parents[order[k] as int].contains(y));
    assert(order.take(k).contains(y));
    let j = choose|j: int| 0 <= j < order.take(k).len() && order.take(k)[j] == y;
    assert(0 <= j < k && order[j] == y);
    let jy = pos_of(order, y);
    assert(0 <= jy < order.len() && order[jy] == y);
    if jy != j {
        assert(order[jy] == order[j]);
        assert(false);
    }
}

/// Along a cycle, positions in a parent-respecting order strictly descend.
proof fn lemma_cycle_desc(parents: Seq<Seq<usize>>, order: Seq<usize>, c: Seq<usize>, i: int)
    requires
        is_perm(order, parents.len()),
        respects_parents(parents, order),
        is_cycle(parents, c),
        0 <= i < c.len(),
    ensures
        pos_of(order, c[i]) <= pos_of(order, c[0]) - i,
        0 <= pos_of(order, c[i]) < order.len(),
        order[pos_of(order, c[i])] == c[i],
    decreases i,
{
    if i == 0 {
        lemma_perm_contains(order, parents.len(), c[0]);
        let k = pos_of(order, c[0]);
        assert(0 <= k < order.len() && order[k] == c[0]);
    } else {
        lemma_cycle_desc(parents, order, c, i - 1);
        lemma_parent_pos_lt(parents, order, c[i - 1], c[i]);
    }
}

/// A parent-respecting full order excludes every dependency cycle.
pub proof fn lemma_topo_excludes_cycle(parents: Seq<Seq<usize>>, order: Seq<usize>, c: Seq<usize>)
    requires
        is_perm(order, parents.len()),
        respects_parents(parents, order),
    ensures
        !is_cycle(parents, c),
{
    if is_cycle(parents, c) {
        let last = c.len() - 1;
        lemma_cycle_desc(parents, order, c, last);
        lemma_parent_pos_lt(parents, order, c[last], c[0]);
    }
}

/// With matching index rows, an index cycle is an identity cycle.
proof fn lemma_cycle_to_id_cycle(nodes: Seq<MigrationNode>, parents: Seq<Seq<usize>>, c: Seq<usize>)
    requires
        parents_match(nodes, parents),
        is_cycle(parents, c),
    ensures
        is_id_cycle(nodes, c),
{
    assert forall|i: int| 0 <= i < c.len() - 1 implies id_step(nodes, #[trigger] c[i] as int, c[i + 1] as int) by {
        let x = c[i] as int;
        let j = choose|j: int| 0 <= j < parents[x].len() && parents[x][j] == c[i + 1];
        assert(nodes[x].parents@[j]@ == nodes[c[i + 1] as int].id@);
    }
    let x = c.last() as int;
    let j = choose|j: int| 0 <= j < parents[x].len() && parents[x][j] == c[0];
    assert(nodes[x].parents@[j]@ == nodes[c[0] as int].id@);
}

/// With distinct ids and matching index rows, an identity cycle is an index
/// cycle.
proof fn lemma_id_cycle_to_cycle(nodes: Seq<MigrationNode>, parents: Seq<Seq<usize>>, c: Seq<usize>)
    requires
        distinct_ids(nodes),
        parents_match(nodes, parents),
        is_id_cycle(nodes, c),
    ensures
        is_cycle(parents, c),
{
    assert forall|i: int| 0 <= i < c.len() - 1 implies parents[#[trigger] c[i] as int].contains(c[i + 1]) by {
        lemma_id_step_to_edge(nodes, parents, c[i], c[i + 1]);
    }
    lemma_id_step_to_edge(nodes, parents, c.last(), c[0]);
}

/// An identity step between two nodes is an edge in the index rows.
proof fn lemma_id_step_to_edge(nodes: Seq<MigrationNode>, parents: Seq<Seq<usize>>, x: usize, y: usize)
    requires
        distinct_ids(nodes),
        parents_match(nodes, parents),
        id_step(nodes, x as int, y as int),
    ensures
        parents[x as int].contains(y),
{
    let j = choose|j: int| 0 <= j < nodes[x as int].parents@.len()
        && nodes[x as int].parents@[j]@ == nodes[y as int].id@;
    let k = parents[x as int][j];
    assert(nodes[k as int].id@ == nodes[y as int].id@);
    if k != y {
        if k < y {
            assert(nodes[k as int].id@ != nodes[y as int].id@);
        } else {
            assert(nodes[y as int].id@ != nodes[k as int].id@);
        }
    }
    assert(parents[x as int][j] == y);
}

/// The validated dependency graph: the registered nodes, per-node parent
/// indices, and a full topological order with lexical tie-breaks.
pub struct Graph {
    /// The registered nodes, in registration order.
    pub nodes: Vec<MigrationNode>,
    /// Parent indices of each node, mirroring its declared parent identities.
    pub parents_ix: Vec<Vec<usize>>,
    /// A full topological order over the node indices.
    pub order: Vec<usize>,
}

impl Graph {
    /// The registered nodes, in registration order.
    pub open spec fn nodes_seq(&self) -> Seq<MigrationNode> {
        self.nodes@
    }

    /// Parent indices per node.
    pub open spec fn parents_seq(&self) -> Seq<Seq<usize>> {
        Seq::new(self.parents_ix@.len(), |i: int| self.parents_ix@[i]@)
    }

    /// The full topological order, as node indices.
    pub open spec fn order_seq(&self) -> Seq<usize> {
        self.order@
    }

    /// Structural invariant established by `build_graph`.
    pub open spec fn wf(&self) -> bool {
        &&& distinct_ids(self.nodes@)
        &&& parents_match(self.nodes@, self.parents_seq())
        &&& is_perm(self.order@, self.nodes@.len())
        &&& respects_parents(self.parents_seq(), self.order@)
        &&& lex_tie_break(self.nodes@, self.parents_seq(), self.order@)
    }

    /// Number of registered nodes.
    pub fn node_count(&self) -> (n: usize)
        ensures
            n == self.nodes_seq().len(),
    {
        self.nodes.len()
    }

    /// The node at a given index.
    pub fn node_at(&self, i: usize) -> (r: &MigrationNode)
        requires
            i < self.nodes_seq().len(),
        ensures
            *r == self.nodes_seq()[i as int],
    {
        &self.nodes[i]
    }

    /// The full topological order: every node appears exactly once, and every
    /// parent strictly before each of its children.
    pub fn full_order(&self) -> (o: &Vec<usize>)
        ensures
            o@ == self.order_seq(),
    {
        &self.order
    }

    /// Index of the node carrying `id`, if it is registered.
    pub fn index_of(&self, id: &MigrationId) -> (r: Option<usize>)
        ensures
            match r {
                Some(k) => k < self.nodes_seq().len() && self.nodes_seq()[k as int].id@ == id@,
                None => unregistered(self.nodes_seq(), id@),
            },
    {
        find_index_by_id(&self.nodes, id)
    }
}

/// Linear search for the node carrying `id`.
fn find_index_by_id(nodes: &Vec<MigrationNode>, id: &MigrationId) -> (r: Option<usize>)
    ensures
        match r {
            Some(k) => k < nodes@.len() && nodes@[k as int].id@ == id@,
            None => unregistered(nodes@, id@),
        },
{
    let n = nodes.len();
    let mut i: usize = 0;
    while i < n
        invariant
            i <= n,
            n == nodes@.len(),
            forall|k: int| 0 <= k < i ==> nodes@[k].id@ != id@,
        decreases n - i,
    {
        if nodes[i].id == *id {
            return Some(i);
        }
        i = i + 1;
    }
    None
}

/// True when every parent of node `i` is already placed.
fn all_parents_placed(parents_ix: &Vec<Vec<usize>>, placed: &Vec<bool>, i: usize) -> (r: bool)
    requires
        i < parents_ix@.len(),
        forall|j: int|
            0 <= j < parents_ix@[i as int]@.len()
                ==> (#[trigger] parents_ix@[i as int]@[j]) < placed@.len(),
    ensures
        r == parents_all_placed(parents_ix@[i as int]@, placed@),
{
    let row = &parents_ix[i];
    let m = row.len();
    let mut j: usize = 0;
    while j < m
        invariant
            j <= m,
            m == row@.len(),
            row@ == parents_ix@[i as int]@,
            forall|jj: int| 0 <= jj < row@.len() ==> (#[trigger] row@[jj]) < placed@.len(),
            forall|jj: int| 0 <= jj < j ==> placed@[#[trigger] row@[jj] as int],
        decreases m - j,
    {
        if !placed[row[j]] {
            return false;
        }
        j = j + 1;
    }
    true
}

/// Find the lexically least unplaced node whose parents are all placed.
fn find_eligible(nodes: &Vec<MigrationNode>, parents_ix: &Vec<Vec<usize>>, placed: &Vec<bool>) -> (r:
    Option<usize>)
    requires
        parents_ix@.len() == nodes@.len(),
        placed@.len() == nodes@.len(),
        rows_valid(Seq::new(parents_ix@.len(), |i: int| parents_ix@[i]@)),
    ensures
        match r {
            Some(b) => b < nodes@.len() && !placed@[b as int] && parents_all_placed(
                parents_ix@[b as int]@,
                placed@,
            ) && forall|i: int|
                0 <= i < nodes@.len() && !placed@[i] && parents_all_placed(
                    #[trigger] parents_ix@[i]@,
                    placed@,
                ) ==> !spec_id_lt(nodes@[i].id@, nodes@[b as int].id@),
            None => forall|i: int|
                0 <= i < nodes@.len() && !placed@[i] ==> exists|j: int|
                    0 <= j < parents_ix@[i]@.len() && !placed@[#[trigger] parents_ix@[i]@[j] as int],
        },
{
    let ghost rows = Seq::new(parents_ix@.len(), |i: int| parents_ix@[i]@);
    let n = nodes.len();
    let mut best: Option<usize> = None;
    let mut i: usize = 0;
    while i < n
        invariant
            i <= n,
            n == nodes@.len(),
            parents_ix@.len() == n,
            placed@.len() == n,
            rows_valid(Seq::new(parents_ix@.len(), |k: int| parents_ix@[k]@)),
            match best {
                Some(b) => b < n && !placed@[b as int] && parents_all_placed(
                    parents_ix@[b as int]@,
                    placed@,
                ) && forall|ii: int|
                    0 <= ii < i && !placed@[ii] && parents_all_placed(
                        #[trigger] parents_ix@[ii]@,
                        placed@,
                    ) ==> !spec_id_lt(nodes@[ii].id@, nodes@[b as int].id@),
                None => forall|ii: int|
                    0 <= ii < i && !placed@[ii] ==> exists|j: int|
                        0 <= j < parents_ix@[ii]@.len()
                            && !placed@[#[trigger] parents_ix@[ii]@[j] as int],
            },
        decreases n - i,
    {
        proof {
            let ghost rws = Seq::new(parents_ix@.len(), |k: int| parents_ix@[k]@);
            assert forall|j: int| 0 <= j < parents_ix@[i as int]@.len() implies (
            #[trigger] parents_ix@[i as int]@[j]) < placed@.len() by {
                assert(rws[i as int] == parents_ix@[i as int]@);
                assert(rws[i as int][j] < rws.len());
            }
        }
        if !placed[i] && all_parents_placed(parents_ix, placed, i) {
            proof {
                lemma_id_lt_irrefl(nodes@[i as int].id@);
            }
            match best {
                None => {
                    best = Some(i);
                },
                Some(b) => {
                    if id_lt(&nodes[i].id, &nodes[b].id) {
                        proof {
                            assert forall|ii: int|
                                0 <= ii < i && !placed@[ii] && parents_all_placed(
                                    #[trigger] parents_ix@[ii]@,
                                    placed@,
                                ) implies !spec_id_lt(
                                nodes@[ii].id@,
                                nodes@[i as int].id@,
                            ) by {
                                if spec_id_lt(nodes@[ii].id@, nodes@[i as int].id@) {
                                    lemma_id_lt_trans(
                                        nodes@[ii].id@,
                                        nodes@[i as int].id@,
                                        nodes@[b as int].id@,
                                    );
                                }
                            }
                        }
                        best = Some(i);
                    }
                },
            }
            i = i + 1;
        } else {
            i = i + 1;
        }
    }
    best
}

/// An order shorter than `n` misses some index below `n`.
proof fn lemma_short_order_misses(order: Seq<usize>, n: nat)
    requires
        order.len() < n,
        n <= usize::MAX,
    ensures
        exists|x: usize| x < n && !order.contains(x),
{
    broadcast use vstd::set::group_set_axioms;
    broadcast use vstd::seq_lib::seq_to_set_is_finite;

    if forall|x: usize| x < n ==> #[trigger] order.contains(x) {
        let t = order.map_values(|y: usize| y as int);
        lemma_int_range(0, n as int);
        assert(set_int_range(0, n as int).subset_of(t.to_set())) by {
            assert forall|y: int| set_int_range(0, n as int).contains(y) implies t.to_set().contains(y) by {
                assert(order.contains(y as usize));
                let k = choose|k: int| 0 <= k < order.len() && order[k] == y as usize;
                assert(t[k] == y);
                assert(t.to_set().contains(t[k]));
            }
        }
        lemma_len_subset(set_int_range(0, n as int), t.to_set());
        t.lemma_cardinality_of_set();
        assert(false);
    }
}

/// Kahn-style zero-indegree processing with lexical tie-breaks. Returns the
/// order built and the placement flags; when the order is shorter than the
/// node count, every unplaced node still has an unplaced parent.
fn kahn(nodes: &Vec<MigrationNode>, parents_ix: &Vec<Vec<usize>>) -> (r: (Vec<usize>, Vec<bool>))
    requires
        parents_ix@.len() == nodes@.len(),
        rows_valid(Seq::new(parents_ix@.len(), |i: int| parents_ix@[i]@)),
    ensures
        r.1@.len() == nodes@.len(),
        r.0@.no_duplicates(),
        r.0@.len() <= nodes@.len(),
        forall|k: int| 0 <= k < r.0@.len() ==> (#[trigger] r.0@[k]) < nodes@.len(),
        forall|x: int| 0 <= x < nodes@.len() ==> (r.1@[x] <==> r.0@.contains(x as usize)),
        respects_parents(Seq::new(parents_ix@.len(), |i: int| parents_ix@[i]@), r.0@),
        lex_tie_break(nodes@, Seq::new(parents_ix@.len(), |i: int| parents_ix@[i]@), r.0@),
        forall|i: int|
            0 <= i < nodes@.len() && !r.1@[i] ==> exists|j: int|
                0 <= j < parents_ix@[i]@.len() && !r.1@[#[trigger] parents_ix@[i]@[j] as int],
{
    let ghost rows = Seq::new(parents_ix@.len(), |i: int| parents_ix@[i]@);
    let n = nodes.len();
    let mut placed: Vec<bool> = Vec::new();
    let mut i0: usize = 0;
    while i0 < n
        invariant
            i0 <= n,
            placed@.len() == i0,
            forall|k: int| 0 <= k < i0 ==> !placed@[k],
        decreases n - i0,
    {
        placed.push(false);
        i0 = i0 + 1;
    }
    let mut order: Vec<usize> = Vec::new();
    loop
        invariant
            n == nodes@.len(),
            parents_ix@.len() == n,
            rows == Seq::new(parents_ix@.len(), |i: int| parents_ix@[i]@),
            rows_valid(rows),
            placed@.len() == n,
            order@.no_duplicates(),
            order@.len() <= n,
            forall|k: int| 0 <= k < order@.len() ==> (#[trigger] order@[k]) < n,
            forall|x: int| 0 <= x < n ==> (placed@[x] <==> order@.contains(x as usize)),
            respects_parents(rows, order@),
            lex_tie_break(nodes@, rows, order@),
        decreases n - order@.len(),
    {
        match find_eligible(nodes, parents_ix, &placed) {
            None => {
                return (order, placed);
            },
            Some(b) => {
                proof {
                    assert(!order@.contains(b));
                    let pushed = order@.push(b);
                    assert(pushed.no_duplicates()) by {
                        assert forall|x: int, y: int| 0 <= x < y < pushed.len() implies pushed[x]
                            != pushed[y] by {
                            if y < order@.len() {
                            } else {
                                assert(pushed[y] == b);
                                if pushed[x] == b {
                                    assert(order@[x] == b);
                                    assert(order@.contains(b));
                                }
                            }
                        }
                    }
                    lemma_distinct_bounded_len(pushed, n as nat);
                    assert forall|x: int| 0 <= x < n implies
                        ((if x == b { true } else { placed@[x] }) <==> pushed.contains(x as usize)) by {
                        if x == b {
                            assert(pushed[order@.len() as int] == b);
                        } else {
                            if placed@[x] {
                                let k = choose|k: int| 0 <= k < order@.len() && order@[k] == x as usize;
                                assert(pushed[k] == x as usize);
                            } else {
                                if pushed.contains(x as usize) {
                                    let k = choose|k: int|
                                        0 <= k < pushed.len() && pushed[k] == x as usize;
                                    assert(k < order@.len());
                                    assert(order@[k] == x as usize);
                                }
                            }
                        }
                    }
                    assert(lex_tie_break(nodes@, rows, pushed)) by {
                        assert forall|k: int, i: usize|
                            0 <= k < pushed.len() && #[trigger] eligible_at(rows, pushed, k, i)
                            implies !spec_id_lt(
                            nodes@[i as int].id@,
                            nodes@[pushed[k] as int].id@,
                        ) by {
                            if k < order@.len() {
                                assert(pushed.take(k) =~= order@.take(k));
                                assert(eligible_at(rows, order@, k, i)) by {
                                    assert(!order@.take(k).contains(i));
                                    assert forall|p: usize| #[trigger] rows[i as int].contains(p)
                                        implies order@.take(k).contains(p) by {
                                        assert(pushed.take(k).contains(p));
                                    }
                                }
                                assert(order@[k] == pushed[k]);
                            } else {
                                assert(pushed.take(k) =~= order@);
                                assert(pushed[k] == b);
                                assert(i < n);
                                assert(!order@.contains(i));
                                assert(!placed@[i as int]);
                                assert(parents_all_placed(parents_ix@[i as int]@, placed@)) by {
                                    assert forall|j: int|
                                        0 <= j < parents_ix@[i as int]@.len() implies placed@[
                                    #[trigger] parents_ix@[i as int]@[j] as int] by {
                                        let p = parents_ix@[i as int]@[j];
                                        assert(rows[i as int][j] == p);
                                        assert(rows[i as int].contains(p));
                                        assert(pushed.take(k).contains(p));
                                        assert(order@.contains(p));
                                    }
                                }
                            }
                        }
                    }
                    assert(respects_parents(rows, pushed)) by {
                        assert forall|k: int, p: usize|
                            0 <= k < pushed.len() && pushed[k] < rows.len()
                                && #[trigger] rows[pushed[k] as int].contains(p)
                            implies pushed.take(k).contains(p) by {
                            if k < order@.len() {
                                assert(order@[k] == pushed[k]);
                                assert(rows[order@[k] as int].contains(p));
                                assert(order@.take(k).contains(p));
                                assert(pushed.take(k) =~= order@.take(k));
                            } else {
                                assert(pushed[k] == b);
                                let pi = choose|pi: int|
                                    0 <= pi < rows[b as int].len() && rows[b as int][pi] == p;
                                assert(parents_ix@[b as int]@[pi] == p);
                                assert(placed@[p as int]);
                                assert(order@.contains(p));
                                assert(pushed.take(k) =~= order@);
                            }
                        }
                    }
                }
                placed.set(b, true);
                order.push(b);
            },
        }
    }
}

/// Find some unplaced node.
fn find_unplaced(placed: &Vec<bool>) -> (r: usize)
    requires
        exists|i: int| 0 <= i < placed@.len() && !placed@[i],
    ensures
        r < placed@.len(),
        !placed@[r as int],
{
    let n = placed.len();
    let mut i: usize = 0;
    while i < n
        invariant
            i <= n,
            n == placed@.len(),
            exists|k: int| 0 <= k < placed@.len() && !placed@[k],
            forall|k: int| 0 <= k < i ==> placed@[k],
        decreases n - i,
    {
        if !placed[i] {
            return i;
        }
        i = i + 1;
    }
    proof {
        assert(false);
    }
    0
}

/// Find an unplaced parent of `cur`.
fn find_unplaced_parent(parents_ix: &Vec<Vec<usize>>, placed: &Vec<bool>, cur: usize) -> (r: usize)
    requires
        cur < parents_ix@.len(),
        forall|j: int|
            0 <= j < parents_ix@[cur as int]@.len()
                ==> (#[trigger] parents_ix@[cur as int]@[j]) < placed@.len(),
        exists|j: int|
            0 <= j < parents_ix@[cur as int]@.len()
                && !placed@[#[trigger] parents_ix@[cur as int]@[j] as int],
    ensures
        r < placed@.len(),
        !placed@[r as int],
        parents_ix@[cur as int]@.contains(r),
{
    let row = &parents_ix[cur];
    let m = row.len();
    let mut j: usize = 0;
    while j < m
        invariant
            j <= m,
            m == row@.len(),
            row@ == parents_ix@[cur as int]@,
            forall|jj: int| 0 <= jj < row@.len() ==> (#[trigger] row@[jj]) < placed@.len(),
            exists|jj: int| 0 <= jj < row@.len() && !placed@[#[trigger] row@[jj] as int],
            forall|jj: int| 0 <= jj < j ==> placed@[#[trigger] row@[jj] as int],
        decreases m - j,
    {
        let p = row[j];
        if !placed[p] {
            proof {
                assert(row@[j as int] == p);
            }
            return p;
        }
        j = j + 1;
    }
    proof {
        assert(false);
    }
    0
}

/// Find the position of `x` in `path`.
fn find_in(path: &Vec<usize>, x: usize) -> (r: usize)
    requires
        path@.contains(x),
    ensures
        r < path@.len(),
        path@[r as int] == x,
{
    let n = path.len();
    let mut i: usize = 0;
    while i < n
        invariant
            i <= n,
            n == path@.len(),
            path@.contains(x),
            forall|k: int| 0 <= k < i ==> path@[k] != x,
        decreases n - i,
    {
        if path[i] == x {
            return i;
        }
        i = i + 1;
    }
    proof {
        assert(false);
    }
    0
}

/// When zero-indegree processing stalls, walk unplaced parents until a node
/// repeats; the repeated segment is a dependency cycle.
fn find_cycle(parents_ix: &Vec<Vec<usize>>, placed: &Vec<bool>) -> (c: Vec<usize>)
    requires
        placed@.len() == parents_ix@.len(),
        rows_valid(Seq::new(parents_ix@.len(), |i: int| parents_ix@[i]@)),
        exists|i: int| 0 <= i < placed@.len() && !placed@[i],
        forall|i: int|
            0 <= i < placed@.len() && !placed@[i] ==> exists|j: int|
                0 <= j < parents_ix@[i]@.len() && !placed@[#[trigger] parents_ix@[i]@[j] as int],
    ensures
        is_cycle(Seq::new(parents_ix@.len(), |i: int| parents_ix@[i]@), c@),
{
    let ghost rows = Seq::new(parents_ix@.len(), |i: int| parents_ix@[i]@);
    let n = parents_ix.len();
    let s0 = find_unplaced(placed);
    let mut seen: Vec<bool> = Vec::new();
    let mut i0: usize = 0;
    while i0 < n
        invariant
            i0 <= n,
            seen@.len() == i0,
            forall|k: int| 0 <= k < i0 ==> !seen@[k],
        decreases n - i0,
    {
        seen.push(false);
        i0 = i0 + 1;
    }
    let mut path: Vec<usize> = Vec::new();
    path.push(s0);
    seen.set(s0, true);
    proof {
        assert forall|x: int| 0 <= x < n implies (seen@[x] <==> path@.contains(x as usize)) by {
            if x == s0 {
                assert(path@[0] == s0);
            } else {
                if path@.contains(x as usize) {
                    let k = choose|k: int| 0 <= k < path@.len() && path@[k] == x as usize;
                    assert(k == 0);
                }
            }
        }
    }
    loop
        invariant
            n == parents_ix@.len(),
            placed@.len() == n,
            seen@.len() == n,
            rows == Seq::new(parents_ix@.len(), |i: int| parents_ix@[i]@),
            rows_valid(rows),
            forall|i: int|
                0 <= i < placed@.len() && !placed@[i] ==> exists|j: int|
                    0 <= j < parents_ix@[i]@.len() && !placed@[#[trigger] parents_ix@[i]@[j] as int],
            path@.len() >= 1,
            path@.no_duplicates(),
            path@.len() <= n,
            forall|k: int| 0 <= k < path@.len() ==> (#[trigger] path@[k]) < n && !placed@[path@[k] as int],
            forall|x: int| 0 <= x < n ==> (seen@[x] <==> path@.contains(x as usize)),
            forall|i: int| 0 <= i < path@.len() - 1 ==> rows[#[trigger] path@[i] as int].contains(path@[i + 1]),
        decreases n - path@.len(),
    {
        let cur = path[path.len() - 1];
        proof {
            assert(path@[path@.len() - 1] == cur);
            assert(cur < n && !placed@[cur as int]);
            assert forall|j: int| 0 <= j < parents_ix@[cur as int]@.len() implies (
            #[trigger] parents_ix@[cur as int]@[j]) < placed@.len() by {
                assert(rows[cur as int] == parents_ix@[cur as int]@);
                assert(rows[cur as int][j] < rows.len());
            }
        }
        let p = find_unplaced_parent(parents_ix, placed, cur);
        if seen[p] {
            let j = find_in(&path, p);
            let plen = path.len();
            let mut c: Vec<usize> = Vec::new();
            let mut k: usize = j;
            proof {
                assert(c@ =~= path@.subrange(j as int, j as int));
            }
            while k < plen
                invariant
                    j <= k <= plen,
                    plen == path@.len(),
                    c@ == path@.subrange(j as int, k as int),
                decreases plen - k,
            {
                let v = path[k];
                c.push(v);
                proof {
                    assert(path@.subrange(j as int, (k + 1) as int) =~= path@.subrange(
                        j as int,
                        k as int,
                    ).push(path@[k as int]));
                }
                k = k + 1;
            }
            proof {
                assert(c@ == path@.subrange(j as int, plen as int));
                assert(c@.len() >= 1);
                assert forall|i: int| 0 <= i < c@.len() implies (#[trigger] c@[i]) < rows.len() by {
                    assert(c@[i] == path@[j + i]);
                }
                assert forall|i: int| 0 <= i < c@.len() - 1 implies rows[#[trigger] c@[i] as int].contains(
                    c@[i + 1],
                ) by {
                    assert(c@[i] == path@[j + i]);
                    assert(c@[i + 1] == path@[j + i + 1]);
                }
                assert(c@.last() == path@[plen - 1]);
                assert(c@.last() == cur);
                assert(c@[0] == path@[j as int]);
                assert(c@[0] == p);
                assert(rows[cur as int].contains(p));
            }
            return c;
        } else {
            proof {
                assert(!path@.contains(p));
                let pushed = path@.push(p);
                assert(pushed.no_duplicates()) by {
                    assert forall|x: int, y: int| 0 <= x < y < pushed.len() implies pushed[x]
                        != pushed[y] by {
                        if y < path@.len() {
                        } else {
                            assert(pushed[y] == p);
                            if pushed[x] == p {
                                assert(path@[x] == p);
                                assert(path@.contains(p));
                            }
                        }
                    }
                }
                lemma_distinct_bounded_len(pushed, n as nat);
                assert forall|x: int| 0 <= x < n implies
                    ((if x == p { true } else { seen@[x] }) <==> pushed.contains(x as usize)) by {
                    if x == p {
                        assert(pushed[path@.len() as int] == p);
                    } else {
                        if seen@[x] {
                            let k = choose|k: int| 0 <= k < path@.len() && path@[k] == x as usize;
                            assert(pushed[k] == x as usize);
                        } else {
                            if pushed.contains(x as usize) {
                                let k = choose|k: int|
                                    0 <= k < pushed.len() && pushed[k] == x as usize;
                                assert(k < path@.len());
                                assert(path@[k] == x as usize);
                            }
                        }
                    }
                }
                assert forall|i: int| 0 <= i < pushed.len() - 1 implies rows[#[trigger] pushed[i] as int].contains(
                    pushed[i + 1],
                ) by {
                    if i < path@.len() - 1 {
                        assert(pushed[i] == path@[i]);
                        assert(pushed[i + 1] == path@[i + 1]);
                    } else {
                        assert(pushed[i] == cur);
                        assert(pushed[i + 1] == p);
                    }
                }
            }
            seen.set(p, true);
            path.push(p);
        }
    }
}

/// Validate a registered collection of nodes into an acyclic graph.
///
/// Succeeds exactly when identities are distinct, every declared parent is
/// registered, and the declared dependencies are cycle-free; each failure
/// names the identities at fault.
pub fn build_graph(nodes: Vec<MigrationNode>) -> (r: Result<Graph, Error>)
    ensures
        match r {
            Ok(g) => {
                &&& g.wf()
                &&& g.nodes_seq() == nodes@
                &&& !has_id_cycle(nodes@)
            },
            Err(e) => match e {
                Error::DuplicateIdentity(id) => exists|i: int, j: int|
                    0 <= i < j < nodes@.len() && nodes@[i].id@ == nodes@[j].id@ && nodes@[i].id@
                        == id@,
                Error::MissingParent { child, parent } => {
                    &&& distinct_ids(nodes@)
                    &&& exists|i: int, j: int|
                        0 <= i < nodes@.len() && 0 <= j < nodes@[i].parents@.len() && nodes@[i].id@
                            == child@ && #[trigger] nodes@[i].parents@[j]@ == parent@
                    &&& unregistered(nodes@, parent@)
                },
                Error::Cycle(ids) => {
                    &&& distinct_ids(nodes@)
                    &&& has_id_cycle(nodes@)
                    &&& exists|c: Seq<usize>|
                        is_id_cycle(nodes@, c) && c.len() == ids@.len() && forall|k: int|
                            0 <= k < c.len() ==> nodes@[#[trigger] c[k] as int].id@ == ids@[k]@
                },
                _ => false,
            },
        },
{
    let n = nodes.len();
    // duplicate identities
    let mut i: usize = 0;
    while i < n
        invariant
            i <= n,
            n == nodes@.len(),
            forall|a: int, b: int| 0 <= a < b < nodes@.len() && a < i ==> nodes@[a].id@ != nodes@[b].id@,
        decreases n - i,
    {
        let mut j: usize = i + 1;
        while j < n
            invariant
                i < j <= n,
                i < n,
                n == nodes@.len(),
                forall|a: int, b: int| 0 <= a < b < nodes@.len() && a < i ==> nodes@[a].id@ != nodes@[b].id@,
                forall|b: int| i < b < j ==> nodes@[i as int].id@ != nodes@[b].id@,
            decreases n - j,
        {
            if nodes[i].id == nodes[j].id {
                return Err(Error::DuplicateIdentity(nodes[i].id.clone()));
            }
            j = j + 1;
        }
        i = i + 1;
    }
    // parent index rows
    let mut parents_ix: Vec<Vec<usize>> = Vec::new();
    let mut i2: usize = 0;
    while i2 < n
        invariant
            i2 <= n,
            n == nodes@.len(),
            distinct_ids(nodes@),
            parents_ix@.len() == i2,
            forall|a: int| 0 <= a < i2 ==> #[trigger] parents_ix@[a]@.len() == nodes@[a].parents@.len(),
            forall|a: int, b: int|
                0 <= a < i2 && 0 <= b < parents_ix@[a]@.len()
                    ==> (#[trigger] parents_ix@[a]@[b]) < n
                        && nodes@[parents_ix@[a]@[b] as int].id@ == nodes@[a].parents@[b]@,
        decreases n - i2,
    {
        let m = nodes[i2].parents.len();
        let mut row: Vec<usize> = Vec::new();
        let mut j2: usize = 0;
        while j2 < m
            invariant
                j2 <= m,
                i2 < n,
                n == nodes@.len(),
                distinct_ids(nodes@),
                m == nodes@[i2 as int].parents@.len(),
                row@.len() == j2,
                forall|b: int|
                    0 <= b < j2
                        ==> (#[trigger] row@[b]) < n
                            && nodes@[row@[b] as int].id@ == nodes@[i2 as int].parents@[b]@,
            decreases m - j2,
        {
            match find_index_by_id(&nodes, &nodes[i2].parents[j2]) {
                Some(k) => {
                    row.push(k);
                },
                None => {
                    return Err(Error::MissingParent {
                        child: nodes[i2].id.clone(),
                        parent: nodes[i2].parents[j2].clone(),
                    });
                },
            }
            j2 = j2 + 1;
        }
        parents_ix.push(row);
        i2 = i2 + 1;
    }
    let ghost rows = Seq::new(parents_ix@.len(), |k: int| parents_ix@[k]@);
    proof {
        assert(parents_match(nodes@, rows));
        assert(rows_valid(rows));
    }
    // topological order; a stall exposes a cycle
    let (order, placed) = kahn(&nodes, &parents_ix);
    if order.len() == n {
        let g = Graph { nodes, parents_ix, order };
        proof {
            assert(g.parents_seq() =~= rows);
            assert(g.wf());
            if has_id_cycle(g.nodes_seq()) {
                let c = choose|c: Seq<usize>| is_id_cycle(g.nodes_seq(), c);
                lemma_id_cycle_to_cycle(g.nodes_seq(), g.parents_seq(), c);
                lemma_topo_excludes_cycle(g.parents_seq(), g.order_seq(), c);
            }
        }
        Ok(g)
    } else {
        proof {
            lemma_distinct_bounded_len(order@, n as nat);
            lemma_short_order_misses(order@, n as nat);
            let x = choose|x: usize| x < n && !order@.contains(x);
            assert(!placed@[x as int]);
        }
        let cyc = find_cycle(&parents_ix, &placed);
        proof {
            lemma_cycle_to_id_cycle(nodes@, rows, cyc@);
        }
        let mut ids: Vec<MigrationId> = Vec::new();
        let mut k3: usize = 0;
        let clen = cyc.len();
        while k3 < clen
            invariant
                k3 <= clen,
                clen == cyc@.len(),
                n == nodes@.len(),
                forall|t: int| 0 <= t < cyc@.len() ==> (#[trigger] cyc@[t]) < n,
                ids@.len() == k3,
                forall|t: int| 0 <= t < k3 ==> #[trigger] ids@[t]@ == nodes@[cyc@[t] as int].id@,
            decreases clen - k3,
        {
            let ix = cyc[k3];
            ids.push(nodes[ix].id.clone());
            k3 = k3 + 1;
        }
        proof {
            assert(is_id_cycle(nodes@, cyc@));
        }
        Err(Error::Cycle(ids))
    }
}

/// A node collection whose declared dependencies contain a cycle admits no
/// well-formed graph, so validation of such a collection always fails.
pub proof fn lemma_cycle_never_validates(g: Graph)
    requires
        g.wf(),
    ensures
        !has_id_cycle(g.nodes_seq()),
{
    if has_id_cycle(g.nodes_seq()) {
        let c = choose|c: Seq<usize>| is_id_cycle(g.nodes_seq(), c);
        lemma_id_cycle_to_cycle(g.nodes_seq(), g.parents_seq(), c);
        lemma_topo_excludes_cycle(g.parents_seq(), g.order_seq(), c);
        assert(is_cycle(g.parents_seq(), c));
    }
}

} // verus!
