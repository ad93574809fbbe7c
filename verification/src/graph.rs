//! Dependency graphs held in a `petgraph` directed graph, with the
//! reachability theory that the goal DAG rests on.

use petgraph::graph::{DiGraph, Graph, NodeIndex};
use vstd::multiset::Multiset;
use vstd::prelude::*;

verus! {

#[verifier::external_type_specification]
#[verifier::external_body]
#[verifier::reject_recursive_types(N)]
#[verifier::reject_recursive_types(E)]
#[verifier::reject_recursive_types(Ty)]
#[verifier::reject_recursive_types(Ix)]
pub struct ExGraph<N, E, Ty, Ix>(Graph<N, E, Ty, Ix>);

#[verifier::external_type_specification]
#[verifier::external_body]
pub struct ExDirected(petgraph::Directed);

/// The node weights of a graph, by node index.
pub uninterp spec fn graph_nodes(g: DiGraph<u128, ()>) -> Seq<u128>;

/// The edges of a graph, by edge index, as (source, target) node indices.
pub uninterp spec fn graph_edges(g: DiGraph<u128, ()>) -> Seq<(usize, usize)>;

/// `edges` holds an edge from `a` to `b`.
pub open spec fn has_edge(edges: Seq<(usize, usize)>, a: int, b: int) -> bool {
    exists|i: int| 0 <= i < edges.len() && edges[i].0 == a && edges[i].1 == b
}

/// Step `i` of the node sequence `p` follows an edge.
pub open spec fn path_step(edges: Seq<(usize, usize)>, p: Seq<int>, i: int) -> bool {
    has_edge(edges, p[i], p[i + 1])
}

/// `p` is a non-empty walk along edges.
pub open spec fn is_path(edges: Seq<(usize, usize)>, p: Seq<int>) -> bool {
    &&& p.len() >= 1
    &&& forall|i: int| 0 <= i < p.len() - 1 ==> #[trigger] path_step(edges, p, i)
}

/// `b` can be reached from `a` by following zero or more edges.
pub open spec fn reachable(edges: Seq<(usize, usize)>, a: int, b: int) -> bool {
    exists|p: Seq<int>| #[trigger] is_path(edges, p) && p[0] == a && p[p.len() - 1] == b
}

/// No edge can be walked back: the graph has no cycle (a self loop is a cycle).
pub open spec fn acyclic(edges: Seq<(usize, usize)>) -> bool {
    forall|i: int|
        0 <= i < edges.len() ==> !reachable(edges, #[trigger] edges[i].1 as int, edges[i].0 as int)
}

/// Every edge joins two of the first `n` nodes.
pub open spec fn edges_within(edges: Seq<(usize, usize)>, n: nat) -> bool {
    forall|i: int| 0 <= i < edges.len() ==> (#[trigger] edges[i]).0 < n && edges[i].1 < n
}

/// `order` lists each of the `n` nodes once, every node before its successors.
pub open spec fn is_topological_order(edges: Seq<(usize, usize)>, n: nat, order: Seq<usize>) -> bool {
    &&& order.len() == n
    &&& order.no_duplicates()
    &&& forall|i: int| 0 <= i < order.len() ==> #[trigger] order[i] < n
    &&& forall|i: int, j: int|
        0 <= i < order.len() && 0 <= j < order.len() && has_edge(
            edges,
            #[trigger] order[i] as int,
            #[trigger] order[j] as int,
        ) ==> i < j
}

/// The node index that node `x` takes after node `removed` is taken out of `n` nodes.
pub open spec fn renamed_after_removal(x: int, removed: int, n: int) -> int {
    if x == n - 1 {
        removed
    } else {
        x
    }
}

/// The node index that node `x` had before node `removed` was taken out of `n` nodes.
pub open spec fn index_before_removal(x: int, removed: int, n: int) -> int {
    if x == removed {
        n - 1
    } else {
        x
    }
}

/// The edges of `new` are those of `old` that do not touch `removed`, renamed.
pub open spec fn edges_after_removal(
    old: Seq<(usize, usize)>,
    new: Seq<(usize, usize)>,
    removed: int,
    n: int,
) -> bool {
    forall|p: int, q: int|
        #[trigger] has_edge(new, p, q) <==> exists|i: int|
            0 <= i < old.len() && old[i].0 != removed && old[i].1 != removed
                && renamed_after_removal(#[trigger] old[i].0 as int, removed, n) == p
                && renamed_after_removal(old[i].1 as int, removed, n) == q
}

/// The sources of the edges that end in `b`, once per edge.
pub open spec fn incoming_sources(edges: Seq<(usize, usize)>, b: int) -> Multiset<usize> {
    edges.filter(ends_in(b)).map_values(edge_source()).to_multiset()
}

/// The edges that end in `b`.
pub open spec fn ends_in(b: int) -> spec_fn((usize, usize)) -> bool {
    |e: (usize, usize)| e.1 == b
}

/// The edges that start in `a`.
pub open spec fn starts_in(a: int) -> spec_fn((usize, usize)) -> bool {
    |e: (usize, usize)| e.0 == a
}

/// The source of an edge.
pub open spec fn edge_source() -> spec_fn((usize, usize)) -> usize {
    |e: (usize, usize)| e.0
}

/// The target of an edge.
pub open spec fn edge_target() -> spec_fn((usize, usize)) -> usize {
    |e: (usize, usize)| e.1
}

/// The targets of the edges that start in `a`, once per edge.
pub open spec fn outgoing_targets(edges: Seq<(usize, usize)>, a: int) -> Multiset<usize> {
    edges.filter(starts_in(a)).map_values(edge_target()).to_multiset()
}

pub proof fn lemma_reach_refl(edges: Seq<(usize, usize)>, a: int)
    ensures
        reachable(edges, a, a),
{
    let p = seq![a];
    assert(is_path(edges, p));
}

pub proof fn lemma_reach_extend(edges: Seq<(usize, usize)>, a: int, w: int, v: int)
    requires
        reachable(edges, a, w),
        has_edge(edges, w, v),
    ensures
        reachable(edges, a, v),
{
    let p = choose|p: Seq<int>| #[trigger] is_path(edges, p) && p[0] == a && p[p.len() - 1] == w;
    let q = p.push(v);
    assert forall|i: int| 0 <= i < q.len() - 1 implies #[trigger] path_step(edges, q, i) by {
        if i < p.len() - 1 {
            assert(path_step(edges, p, i));
        }
    }
    assert(is_path(edges, q));
}

pub proof fn lemma_reach_trans(edges: Seq<(usize, usize)>, a: int, b: int, c: int)
    requires
        reachable(edges, a, b),
        reachable(edges, b, c),
    ensures
        reachable(edges, a, c),
{
    let p1 = choose|p: Seq<int>| #[trigger] is_path(edges, p) && p[0] == a && p[p.len() - 1] == b;
    let p2 = choose|p: Seq<int>| #[trigger] is_path(edges, p) && p[0] == b && p[p.len() - 1] == c;
    let q = p1 + p2.drop_first();
    assert forall|i: int| 0 <= i < q.len() - 1 implies #[trigger] path_step(edges, q, i) by {
        if i < p1.len() - 1 {
            assert(path_step(edges, p1, i));
        } else {
            assert(path_step(edges, p2, i - p1.len() + 1));
        }
    }
    assert(is_path(edges, q));
}

proof fn lemma_path_with_new_edge(edges: Seq<(usize, usize)>, x: usize, y: usize, p: Seq<int>)
    requires
        is_path(edges.push((x, y)), p),
    ensures
        reachable(edges, p[0], p[p.len() - 1]) || (reachable(edges, p[0], x as int) && reachable(
            edges,
            y as int,
            p[p.len() - 1],
        )),
    decreases p.len(),
{
    let e2 = edges.push((x, y));
    if p.len() == 1 {
        lemma_reach_refl(edges, p[0]);
    } else {
        let q = p.drop_last();
        assert forall|i: int| 0 <= i < q.len() - 1 implies #[trigger] path_step(e2, q, i) by {
            assert(path_step(e2, p, i));
        }
        lemma_path_with_new_edge(edges, x, y, q);
        let w = q[q.len() - 1];
        let v = p[p.len() - 1];
        assert(path_step(e2, p, p.len() - 2));
        let k = choose|k: int| 0 <= k < e2.len() && e2[k].0 == w && e2[k].1 == v;
        if k < edges.len() {
            assert(has_edge(edges, w, v));
            if reachable(edges, p[0], w) {
                lemma_reach_extend(edges, p[0], w, v);
            } else {
                lemma_reach_extend(edges, y as int, w, v);
            }
        } else {
            assert(k == edges.len());
            assert(e2[k] == (x, y));
            lemma_reach_refl(edges, y as int);
        }
    }
}

/// A path in a graph with one more edge `(x, y)` is a path of the old graph, or
/// runs through the new edge.
pub proof fn lemma_reach_with_new_edge(edges: Seq<(usize, usize)>, x: usize, y: usize, u: int, v: int)
    requires
        reachable(edges.push((x, y)), u, v),
    ensures
        reachable(edges, u, v) || (reachable(edges, u, x as int) && reachable(edges, y as int, v)),
{
    let e2 = edges.push((x, y));
    let p = choose|p: Seq<int>| #[trigger] is_path(e2, p) && p[0] == u && p[p.len() - 1] == v;
    lemma_path_with_new_edge(edges, x, y, p);
}

/// Adding an edge `(x, y)` to an acyclic graph in which `x` cannot be reached
/// from `y` leaves it acyclic.
pub proof fn lemma_acyclic_add_edge(edges: Seq<(usize, usize)>, x: usize, y: usize)
    requires
        acyclic(edges),
        !reachable(edges, y as int, x as int),
    ensures
        acyclic(edges.push((x, y))),
{
    let e2 = edges.push((x, y));
    assert forall|i: int| 0 <= i < e2.len() implies !reachable(
        e2,
        #[trigger] e2[i].1 as int,
        e2[i].0 as int,
    ) by {
        let a = e2[i].0 as int;
        let b = e2[i].1 as int;
        if reachable(e2, b, a) {
            lemma_reach_with_new_edge(edges, x, y, b, a);
            if i < edges.len() {
                assert(edges[i] == e2[i]);
                if reachable(edges, b, a) {
                } else {
                    // y reaches a, a -> b is an edge, b reaches x: so y reaches x.
                    assert(has_edge(edges, a, b));
                    lemma_reach_extend(edges, y as int, a, b);
                    lemma_reach_trans(edges, y as int, b, x as int);
                }
            } else {
                assert(i == edges.len());
                assert(e2[i] == (x, y));
            }
        }
    }
}

/// Two distinct nodes that reach each other lie on a cycle.
pub proof fn lemma_mutual_reach_not_acyclic(edges: Seq<(usize, usize)>, x: int, y: int)
    requires
        x != y,
        reachable(edges, x, y),
        reachable(edges, y, x),
    ensures
        !acyclic(edges),
{
    let p = choose|p: Seq<int>| #[trigger] is_path(edges, p) && p[0] == x && p[p.len() - 1] == y;
    assert(p.len() >= 2);
    assert(path_step(edges, p, 0));
    let k = choose|k: int| 0 <= k < edges.len() && edges[k].0 == p[0] && edges[k].1 == p[1];
    let rest = p.drop_first();
    assert forall|i: int| 0 <= i < rest.len() - 1 implies #[trigger] path_step(edges, rest, i) by {
        assert(path_step(edges, p, i + 1));
    }
    assert(is_path(edges, rest));
    lemma_reach_trans(edges, p[1], y, x);
    assert(!reachable(edges, edges[k].1 as int, edges[k].0 as int) ==> !acyclic(edges));
}

/// A path of the graph left after a node removal is, renamed back, a path of
/// the graph before it.
proof fn lemma_path_after_removal(
    old: Seq<(usize, usize)>,
    new: Seq<(usize, usize)>,
    removed: int,
    n: int,
    p: Seq<int>,
)
    requires
        0 <= removed < n,
        edges_within(old, n as nat),
        edges_after_removal(old, new, removed, n),
        is_path(new, p),
    ensures
        is_path(old, p.map_values(|x: int| index_before_removal(x, removed, n))),
{
    let q = p.map_values(|x: int| index_before_removal(x, removed, n));
    assert forall|i: int| 0 <= i < q.len() - 1 implies #[trigger] path_step(old, q, i) by {
        assert(path_step(new, p, i));
        assert(has_edge(new, p[i], p[i + 1]));
        let k = choose|k: int|
            0 <= k < old.len() && old[k].0 != removed && old[k].1 != removed
                && renamed_after_removal(#[trigger] old[k].0 as int, removed, n) == p[i]
                && renamed_after_removal(old[k].1 as int, removed, n) == p[i + 1];
        assert(old[k].0 < n && old[k].1 < n);
        assert(index_before_removal(p[i], removed, n) == old[k].0);
        assert(index_before_removal(p[i + 1], removed, n) == old[k].1);
    }
}

/// Removing a node (and the edges that touch it) keeps a graph acyclic.
pub proof fn lemma_acyclic_after_removal(
    old: Seq<(usize, usize)>,
    new: Seq<(usize, usize)>,
    removed: int,
    n: int,
)
    requires
        0 <= removed < n,
        edges_within(old, n as nat),
        edges_after_removal(old, new, removed, n),
        acyclic(old),
    ensures
        acyclic(new),
{
    assert forall|j: int| 0 <= j < new.len() implies !reachable(
        new,
        #[trigger] new[j].1 as int,
        new[j].0 as int,
    ) by {
        let p0 = new[j].0 as int;
        let q0 = new[j].1 as int;
        assert(has_edge(new, p0, q0));
        let k = choose|k: int|
            0 <= k < old.len() && old[k].0 != removed && old[k].1 != removed
                && renamed_after_removal(#[trigger] old[k].0 as int, removed, n) == p0
                && renamed_after_removal(old[k].1 as int, removed, n) == q0;
        if reachable(new, q0, p0) {
            let p = choose|p: Seq<int>| #[trigger] is_path(new, p) && p[0] == q0 && p[p.len() - 1] == p0;
            lemma_path_after_removal(old, new, removed, n, p);
            let q = p.map_values(|x: int| index_before_removal(x, removed, n));
            assert(old[k].0 < n && old[k].1 < n);
            assert(q[0] == old[k].1);
            assert(q[q.len() - 1] == old[k].0);
            assert(reachable(old, old[k].1 as int, old[k].0 as int));
        }
    }
}

/// A node is among the incoming sources of `b` exactly when an edge joins it to `b`.
pub proof fn lemma_incoming_sources(edges: Seq<(usize, usize)>, b: int, j: usize)
    ensures
        incoming_sources(edges, b).count(j) > 0 <==> has_edge(edges, j as int, b),
{
    let pred = ends_in(b);
    let f = edge_source();
    let fl = edges.filter(pred);
    let m = fl.map_values(f);
    vstd::seq_lib::to_multiset_contains(m, j);
    if m.contains(j) {
        let k = choose|k: int| 0 <= k < m.len() && m[k] == j;
        assert(m.len() == fl.len());
        edges.lemma_filter_pred(pred, k);
        assert(fl.contains(fl[k]));
        edges.lemma_filter_contains_rev(pred, fl[k]);
        let i = choose|i: int| 0 <= i < edges.len() && edges[i] == fl[k];
        assert(edges[i].0 == j && edges[i].1 == b);
    }
    if has_edge(edges, j as int, b) {
        let i = choose|i: int| 0 <= i < edges.len() && edges[i].0 == j && edges[i].1 == b;
        edges.lemma_filter_contains(pred, i);
        let k = choose|k: int| 0 <= k < fl.len() && fl[k] == edges[i];
        assert(m.len() == fl.len());
        assert(m[k] == f(fl[k]));
        assert(m[k] == j);
        assert(m.contains(j));
    }
}

/// A node is among the outgoing targets of `a` exactly when an edge joins `a` to it.
pub proof fn lemma_outgoing_targets(edges: Seq<(usize, usize)>, a: int, j: usize)
    ensures
        outgoing_targets(edges, a).count(j) > 0 <==> has_edge(edges, a, j as int),
{
    let pred = starts_in(a);
    let f = edge_target();
    let fl = edges.filter(pred);
    let m = fl.map_values(f);
    vstd::seq_lib::to_multiset_contains(m, j);
    if m.contains(j) {
        let k = choose|k: int| 0 <= k < m.len() && m[k] == j;
        assert(m.len() == fl.len());
        edges.lemma_filter_pred(pred, k);
        assert(fl.contains(fl[k]));
        edges.lemma_filter_contains_rev(pred, fl[k]);
        let i = choose|i: int| 0 <= i < edges.len() && edges[i] == fl[k];
        assert(edges[i].0 == a && edges[i].1 == j);
    }
    if has_edge(edges, a, j as int) {
        let i = choose|i: int| 0 <= i < edges.len() && edges[i].0 == a && edges[i].1 == j;
        edges.lemma_filter_contains(pred, i);
        let k = choose|k: int| 0 <= k < fl.len() && fl[k] == edges[i];
        assert(m.len() == fl.len());
        assert(m[k] == f(fl[k]));
        assert(m[k] == j);
        assert(m.contains(j));
    }
}

/// Between two nodes that survive a removal, an edge exists afterwards (under
/// their new indices) exactly when it existed before.
pub proof fn lemma_edge_after_removal(
    old: Seq<(usize, usize)>,
    new: Seq<(usize, usize)>,
    removed: int,
    n: int,
    x: int,
    y: int,
)
    requires
        0 <= removed < n,
        0 <= x < n,
        0 <= y < n,
        x != removed,
        y != removed,
        edges_within(old, n as nat),
        edges_after_removal(old, new, removed, n),
    ensures
        has_edge(new, renamed_after_removal(x, removed, n), renamed_after_removal(y, removed, n))
            <==> has_edge(old, x, y),
{
    let p = renamed_after_removal(x, removed, n);
    let q = renamed_after_removal(y, removed, n);
    if has_edge(new, p, q) {
        let k = choose|k: int|
            0 <= k < old.len() && old[k].0 != removed && old[k].1 != removed
                && renamed_after_removal(#[trigger] old[k].0 as int, removed, n) == p
                && renamed_after_removal(old[k].1 as int, removed, n) == q;
        assert(old[k].0 < n && old[k].1 < n);
        assert(old[k].0 == x && old[k].1 == y);
    }
    if has_edge(old, x, y) {
        let k = choose|k: int| 0 <= k < old.len() && old[k].0 == x && old[k].1 == y;
        assert(renamed_after_removal(old[k].0 as int, removed, n) == p);
        assert(has_edge(new, p, q));
    }
}

/// A graph whose edges are all edges of an acyclic graph is acyclic.
pub proof fn lemma_acyclic_subgraph(old: Seq<(usize, usize)>, new: Seq<(usize, usize)>)
    requires
        acyclic(old),
        forall|a: int, b: int| #[trigger] has_edge(new, a, b) ==> has_edge(old, a, b),
    ensures
        acyclic(new),
{
    assert forall|j: int| 0 <= j < new.len() implies !reachable(
        new,
        #[trigger] new[j].1 as int,
        new[j].0 as int,
    ) by {
        let a = new[j].0 as int;
        let b = new[j].1 as int;
        assert(has_edge(new, a, b));
        let k = choose|k: int| 0 <= k < old.len() && old[k].0 == a && old[k].1 == b;
        if reachable(new, b, a) {
            let p = choose|p: Seq<int>| #[trigger] is_path(new, p) && p[0] == b && p[p.len() - 1] == a;
            assert forall|i: int| 0 <= i < p.len() - 1 implies #[trigger] path_step(old, p, i) by {
                assert(path_step(new, p, i));
            }
            assert(is_path(old, p));
            assert(reachable(old, old[k].1 as int, old[k].0 as int));
        }
    }
}

proof fn lemma_index_range_set(k: nat)
    requires
        k <= usize::MAX + 1,
    ensures
        Set::new(|j: usize| j < k).finite(),
        Set::new(|j: usize| j < k).len() == k,
    decreases k,
{
    if k == 0 {
        assert(Set::new(|j: usize| j < k) =~= Set::<usize>::empty());
    } else {
        lemma_index_range_set((k - 1) as nat);
        assert(Set::new(|j: usize| j < (k - 1) as nat).insert((k - 1) as usize) =~= Set::new(
            |j: usize| j < k,
        ));
    }
}

/// `n` distinct indices below `n` cover every index below `n`.
pub proof fn lemma_order_covers(order: Seq<usize>, n: nat)
    requires
        n <= usize::MAX,
        order.len() == n,
        order.no_duplicates(),
        forall|i: int| 0 <= i < order.len() ==> #[trigger] order[i] < n,
    ensures
        forall|j: usize| j < n ==> #[trigger] order.contains(j),
{
    let x = order.to_set();
    let y = Set::new(|j: usize| j < n);
    order.unique_seq_to_set();
    lemma_index_range_set(n);
    assert forall|j: usize| #[trigger] x.contains(j) implies y.contains(j) by {
        let i = choose|i: int| 0 <= i < order.len() && order[i] == j;
        assert(order[i] < n);
    }
    vstd::set_lib::lemma_subset_equality(x, y);
    assert forall|j: usize| j < n implies #[trigger] order.contains(j) by {
        assert(y.contains(j));
        assert(x.contains(j));
    }
}

/// Creates an empty directed graph (`Graph::new`).
#[verifier::external_body]
pub(crate) fn graph_new() -> (g: DiGraph<u128, ()>)
    ensures
        graph_nodes(g) == Seq::<u128>::empty(),
        graph_edges(g) == Seq::<(usize, usize)>::empty(),
{
    DiGraph::new()
}

/// Appends a node of weight `w` (`Graph::add_node`); the new node takes the next index.
#[verifier::external_body]
pub(crate) fn graph_add_node(g: &mut DiGraph<u128, ()>, w: u128) -> (i: usize)
    requires
        graph_nodes(*old(g)).len() < u32::MAX,
    ensures
        i == graph_nodes(*old(g)).len(),
        graph_nodes(*final(g)) == graph_nodes(*old(g)).push(w),
        graph_edges(*final(g)) == graph_edges(*old(g)),
{
    g.add_node(w).index()
}

/// Appends an edge from node `a` to node `b` (`Graph::add_edge`).
#[verifier::external_body]
pub(crate) fn graph_add_edge(g: &mut DiGraph<u128, ()>, a: usize, b: usize)
    requires
        a < graph_nodes(*old(g)).len(),
        b < graph_nodes(*old(g)).len(),
        graph_edges(*old(g)).len() < u32::MAX,
    ensures
        graph_nodes(*final(g)) == graph_nodes(*old(g)),
        graph_edges(*final(g)) == graph_edges(*old(g)).push((a, b)),
{
    g.add_edge(NodeIndex::new(a), NodeIndex::new(b), ());
}

/// Finds an edge from `a` to `b` (`Graph::find_edge`): which one of several
/// parallel edges it finds is not stated.
#[verifier::external_body]
pub(crate) fn graph_find_edge(g: &DiGraph<u128, ()>, a: usize, b: usize) -> (r: Option<usize>)
    requires
        a < graph_nodes(*g).len(),
        b < graph_nodes(*g).len(),
    ensures
        match r {
            Some(e) => e < graph_edges(*g).len() && graph_edges(*g)[e as int] == (a, b),
            None => !has_edge(graph_edges(*g), a as int, b as int),
        },
{
    g.find_edge(NodeIndex::new(a), NodeIndex::new(b)).map(|e| e.index())
}

/// Removes the edge of index `e` (`Graph::remove_edge`); the last edge takes its index.
#[verifier::external_body]
pub(crate) fn graph_remove_edge(g: &mut DiGraph<u128, ()>, e: usize)
    requires
        e < graph_edges(*old(g)).len(),
    ensures
        graph_nodes(*final(g)) == graph_nodes(*old(g)),
        graph_edges(*final(g)) == graph_edges(*old(g)).update(
            e as int,
            graph_edges(*old(g)).last(),
        ).drop_last(),
{
    g.remove_edge(petgraph::graph::EdgeIndex::new(e));
}

/// Removes node `a` and every edge that touches it (`Graph::remove_node`); the
/// last node takes index `a`. Which edge ends up at which edge index, and how
/// many parallel copies of an edge remain, is not stated: only which edges exist.
#[verifier::external_body]
pub(crate) fn graph_remove_node(g: &mut DiGraph<u128, ()>, a: usize)
    requires
        a < graph_nodes(*old(g)).len(),
    ensures
        graph_nodes(*final(g)) == graph_nodes(*old(g)).update(
            a as int,
            graph_nodes(*old(g)).last(),
        ).drop_last(),
        edges_after_removal(
            graph_edges(*old(g)),
            graph_edges(*final(g)),
            a as int,
            graph_nodes(*old(g)).len() as int,
        ),
        graph_edges(*final(g)).len() <= graph_edges(*old(g)).len(),
{
    g.remove_node(NodeIndex::new(a));
}

/// Whether `to` can be reached from `from` (`petgraph::algo::has_path_connecting`);
/// a node reaches itself.
#[verifier::external_body]
pub(crate) fn graph_has_path(g: &DiGraph<u128, ()>, from: usize, to: usize) -> (r: bool)
    requires
        from < graph_nodes(*g).len(),
        to < graph_nodes(*g).len(),
    ensures
        r == reachable(graph_edges(*g), from as int, to as int),
{
    petgraph::algo::has_path_connecting(g, NodeIndex::new(from), NodeIndex::new(to), None)
}

/// A topological order of the nodes (`petgraph::algo::toposort`), or, on a
/// cyclic graph, a node of a cycle; which node is not stated.
#[verifier::external_body]
pub(crate) fn graph_toposort(g: &DiGraph<u128, ()>) -> (r: Result<Vec<usize>, usize>)
    ensures
        match r {
            Ok(order) => is_topological_order(
                graph_edges(*g),
                graph_nodes(*g).len(),
                order@,
            ),
            Err(_) => !acyclic(graph_edges(*g)),
        },
{
    match petgraph::algo::toposort(g, None) {
        Ok(order) => Ok(order.into_iter().map(|i| i.index()).collect()),
        Err(cycle) => Err(cycle.node_id().index()),
    }
}

/// The strongly connected components (`petgraph::algo::tarjan_scc`): each lists
/// distinct nodes that all reach one another. Their order is not stated.
#[verifier::external_body]
pub(crate) fn graph_tarjan_scc(g: &DiGraph<u128, ()>) -> (r: Vec<Vec<usize>>)
    ensures
        forall|c: int| 0 <= c < r@.len() ==> (#[trigger] r@[c])@.no_duplicates(),
        forall|c: int, x: int, y: int|
            0 <= c < r@.len() && 0 <= x < r@[c]@.len() && 0 <= y < r@[c]@.len() ==> reachable(
                graph_edges(*g),
                #[trigger] r@[c]@[x] as int,
                #[trigger] r@[c]@[y] as int,
            ),
{
    petgraph::algo::tarjan_scc(g).into_iter().map(|c| c.into_iter().map(|i| i.index()).collect()).collect()
}

/// The neighbours of node `a` along its edges (`Graph::neighbors_directed`):
/// with `incoming`, the sources of the edges into `a`, else the targets of the
/// edges out of `a`, once per edge. Their order is not stated.
#[verifier::external_body]
pub(crate) fn graph_neighbors(g: &DiGraph<u128, ()>, a: usize, incoming: bool) -> (r: Vec<usize>)
    requires
        a < graph_nodes(*g).len(),
    ensures
        incoming ==> r@.to_multiset() == incoming_sources(graph_edges(*g), a as int),
        !incoming ==> r@.to_multiset() == outgoing_targets(graph_edges(*g), a as int),
{
    let dir = match incoming {
        true => petgraph::Direction::Incoming,
        false => petgraph::Direction::Outgoing,
    };
    g.neighbors_directed(NodeIndex::new(a), dir).map(|i| i.index()).collect()
}

/// The weight of node `i` (indexing a `Graph` by a node index).
#[verifier::external_body]
pub(crate) fn graph_weight(g: &DiGraph<u128, ()>, i: usize) -> (w: u128)
    requires
        i < graph_nodes(*g).len(),
    ensures
        w == graph_nodes(*g)[i as int],
{
    g[NodeIndex::new(i)]
}

} // verus!
