//! Directed acyclic graph of goal dependencies.
//!
//! A dependency "`from` depends on `to`" is stored as the edge `to -> from`:
//! `to` must complete before `from` can start. Adding an edge that would
//! close a cycle is refused, so the graph stays acyclic.

use crate::goal::{contains_id, Goal, GoalStatus};
use crate::graph::{
    acyclic, edges_within, graph_add_edge, graph_add_node, graph_edges,
    graph_find_edge, graph_has_path, graph_neighbors, graph_new, graph_nodes, graph_remove_edge,
    graph_remove_node, graph_tarjan_scc, graph_toposort, graph_weight, has_edge,
    lemma_acyclic_add_edge, lemma_acyclic_after_removal, lemma_acyclic_subgraph,
    lemma_edge_after_removal, lemma_incoming_sources, lemma_mutual_reach_not_acyclic, lemma_order_covers, ends_in, starts_in,
    lemma_outgoing_targets, reachable, renamed_after_removal,
};
use petgraph::graph::DiGraph;
use std::collections::HashMap;
use vstd::prelude::*;

verus! {

broadcast use vstd::std_specs::hash::group_hash_axioms;

/// The ids other than `x`.
pub open spec fn other_than(x: u128) -> spec_fn(u128) -> bool {
    |d: u128| d != x
}

/// Errors of goal-graph operations.
#[derive(Debug)]
pub enum DagError {
    /// A cycle was found through these goals
    CycleDetected(Vec<u128>),
    /// No goal of this id is in the graph
    NodeNotFound(u128),
    /// No dependency `from` -> `to`
    EdgeNotFound { from: u128, to: u128 },
    /// The dependency would close a cycle
    WouldCreateCycle { from: u128, to: u128 },
    /// `goal` lists `blocked` as an anti-dependency
    AntiDependencyConflict { goal: u128, blocked: u128 },
    /// The graph is empty
    Empty,
}

/// Graph of goals and their dependencies.
pub struct GoalDag {
    graph: DiGraph<u128, ()>,
    node_map: HashMap<u128, usize>,
    goals: Vec<Goal>,
}

impl GoalDag {
    /// The internal structure is consistent: every goal id has one node, the
    /// id map points at it, goals are stored by node index, and the graph has
    /// no cycle.
    pub closed spec fn wf(&self) -> bool {
        let nodes = graph_nodes(self.graph);
        let edges = graph_edges(self.graph);
        &&& nodes.len() == self.goals@.len()
        &&& forall|i: int|
            0 <= i < nodes.len() ==> #[trigger] self.node_map@.contains_key(nodes[i])
                && self.node_map@[nodes[i]] == i
        &&& forall|id: u128|
            #[trigger] self.node_map@.contains_key(id) ==> self.node_map@[id] < nodes.len()
                && nodes[self.node_map@[id] as int] == id
        &&& edges_within(edges, nodes.len())
        &&& acyclic(edges)
    }

    /// Number of goals.
    pub closed spec fn spec_len(&self) -> nat {
        self.goals@.len()
    }

    /// A goal of this id is in the graph.
    pub closed spec fn spec_contains(&self, id: u128) -> bool {
        self.node_map@.contains_key(id)
    }

    /// The goal of this id.
    pub closed spec fn spec_goal(&self, id: u128) -> Goal {
        self.goals@[self.node_map@[id] as int]
    }

    /// The graph holds an edge `to -> from`: `from` depends on `to`.
    pub closed spec fn spec_depends_on(&self, from: u128, to: u128) -> bool {
        has_edge(
            graph_edges(self.graph),
            self.node_map@[to] as int,
            self.node_map@[from] as int,
        )
    }

    /// Following dependency edges from `a` reaches `b` (every goal reaches itself).
    pub closed spec fn spec_reaches(&self, a: u128, b: u128) -> bool {
        reachable(graph_edges(self.graph), self.node_map@[a] as int, self.node_map@[b] as int)
    }

    /// The dependency graph has no cycle.
    pub closed spec fn spec_acyclic(&self) -> bool {
        acyclic(graph_edges(self.graph))
    }

    /// Number of dependency edges.
    pub closed spec fn spec_edge_count(&self) -> nat {
        graph_edges(self.graph).len()
    }

    /// All dependencies listed by goal `id` are goals of the graph that are completed.
    pub open spec fn spec_dependencies_satisfied(&self, id: u128) -> bool {
        &&& self.spec_contains(id)
        &&& forall|k: int|
            0 <= k < self.spec_goal(id).dependencies@.len() ==> {
                let d = #[trigger] self.spec_goal(id).dependencies@[k];
                self.spec_contains(d) && self.spec_goal(d).status == GoalStatus::Completed
            }
    }

    /// Goal `id` can be worked on: it is ready, or pending with its dependencies satisfied.
    pub open spec fn spec_is_ready(&self, id: u128) -> bool {
        &&& self.spec_contains(id)
        &&& (self.spec_goal(id).status == GoalStatus::Ready || (self.spec_goal(id).status
            == GoalStatus::Pending && self.spec_dependencies_satisfied(id)))
    }

    /// A well-formed goal graph has no cycle.
    pub proof fn lemma_wf_acyclic(&self)
        requires
            self.wf(),
        ensures
            self.spec_acyclic(),
    {
    }

    /// Every goal reaches itself.
    pub proof fn lemma_reaches_self(&self, a: u128)
        ensures
            self.spec_reaches(a, a),
    {
        crate::graph::lemma_reach_refl(graph_edges(self.graph), self.node_map@[a] as int);
    }

    /// A goal reaches every goal that depends on a goal it reaches; in
    /// particular a goal reaches each goal that depends on it.
    pub proof fn lemma_reaches_dependent(&self, a: u128, b: u128, c: u128)
        requires
            self.spec_reaches(a, b),
            self.spec_depends_on(c, b),
        ensures
            self.spec_reaches(a, c),
    {
        crate::graph::lemma_reach_extend(
            graph_edges(self.graph),
            self.node_map@[a] as int,
            self.node_map@[b] as int,
            self.node_map@[c] as int,
        );
    }

    /// Reaching another goal takes a first step: some goal of the graph
    /// depends on the start and reaches the end.
    pub proof fn lemma_reaches_first_step(&self, a: u128, b: u128)
        requires
            self.wf(),
            self.spec_contains(a),
            self.spec_contains(b),
            self.spec_reaches(a, b),
            a != b,
        ensures
            exists|c: u128| #[trigger] self.spec_depends_on(c, a) && self.spec_contains(c) && self.spec_reaches(c, b),
    {
        let edges = graph_edges(self.graph);
        let nodes = graph_nodes(self.graph);
        let ia = self.node_map@[a] as int;
        let ib = self.node_map@[b] as int;
        let p = choose|p: Seq<int>| #[trigger] crate::graph::is_path(edges, p) && p[0] == ia && p[p.len() - 1] == ib;
        assert(nodes[ia] == a && nodes[ib] == b);
        assert(p.len() >= 2);
        assert(crate::graph::path_step(edges, p, 0));
        let k = choose|k: int| 0 <= k < edges.len() && edges[k].0 == p[0] && edges[k].1 == p[1];
        let j = p[1];
        assert(edges[k].1 < nodes.len());
        assert(j == edges[k].1 as int && 0 <= j < nodes.len());
        let c = nodes[j];
        assert(self.node_map@.contains_key(nodes[j]));
        assert(self.node_map@[nodes[j]] == j);
        let q = p.drop_first();
        assert forall|i: int| 0 <= i < q.len() - 1 implies #[trigger] crate::graph::path_step(edges, q, i) by {
            assert(crate::graph::path_step(edges, p, i + 1));
        }
        assert(crate::graph::is_path(edges, q));
        assert(self.spec_reaches(c, b));
        assert(self.spec_depends_on(c, a));
    }

    /// A goal on which nothing depends reaches only itself.
    pub proof fn lemma_reaches_only_self(&self, a: u128, b: u128)
        requires
            self.wf(),
            self.spec_contains(a),
            self.spec_contains(b),
            forall|c: u128| self.spec_contains(c) ==> !#[trigger] self.spec_depends_on(c, a),
            self.spec_reaches(a, b),
        ensures
            a == b,
    {
        if a != b {
            self.lemma_reaches_first_step(a, b);
        }
    }

    /// Create a new empty graph.
    pub fn new() -> (dag: GoalDag)
        ensures
            dag.wf(),
            dag.spec_len() == 0,
            dag.spec_edge_count() == 0,
            forall|id: u128| !dag.spec_contains(id),
            forall|a: u128, b: u128| !#[trigger] dag.spec_depends_on(a, b),
    {
        let dag = GoalDag { graph: graph_new(), node_map: HashMap::new(), goals: Vec::new() };
        proof {
            assert(acyclic(graph_edges(dag.graph)));
        }
        dag
    }

    /// Number of goals.
    pub fn len(&self) -> (n: usize)
        requires
            self.wf(),
        ensures
            n == self.spec_len(),
    {
        self.goals.len()
    }

    /// Whether the graph holds no goal.
    pub fn is_empty(&self) -> (b: bool)
        requires
            self.wf(),
        ensures
            b == (self.spec_len() == 0),
    {
        self.goals.len() == 0
    }

    /// Add a goal.
    ///
    /// A goal whose id is already in the graph is refused (with the error
    /// `NodeNotFound` carrying that id).
    pub fn add_goal(&mut self, goal: Goal) -> (r: Result<(), DagError>)
        requires
            old(self).wf(),
            old(self).spec_len() + 1 < u32::MAX,
        ensures
            final(self).wf(),
            old(self).spec_contains(goal.id) ==> r == Err::<(), DagError>(
                DagError::NodeNotFound(goal.id),
            ) && *final(self) == *old(self),
            !old(self).spec_contains(goal.id) ==> {
                &&& r is Ok
                &&& final(self).spec_len() == old(self).spec_len() + 1
                &&& final(self).spec_edge_count() == old(self).spec_edge_count()
                &&& forall|id: u128|
                    #[trigger] final(self).spec_contains(id) <==> (old(self).spec_contains(id)
                        || id == goal.id)
                &&& final(self).spec_goal(goal.id) == goal
                &&& forall|id: u128|
                    #[trigger] old(self).spec_contains(id) ==> final(self).spec_goal(id)
                        == old(self).spec_goal(id)
                &&& forall|a: u128, b: u128|
                    old(self).spec_contains(a) && old(self).spec_contains(b) ==> (
                    #[trigger] final(self).spec_depends_on(a, b) <==> old(self).spec_depends_on(
                        a,
                        b,
                    ))
                &&& forall|x: u128|
                    !#[trigger] final(self).spec_depends_on(goal.id, x) && !final(self).spec_depends_on(x, goal.id)
            },
    {
        if self.node_map.contains_key(&goal.id) {
            return Err(DagError::NodeNotFound(goal.id));
        }
        let id = goal.id;
        let ghost old_nodes = graph_nodes(self.graph);
        let idx = graph_add_node(&mut self.graph, id);
        self.node_map.insert(id, idx);
        self.goals.push(goal);
        proof {
            let nodes = graph_nodes(self.graph);
            assert forall|i: int| 0 <= i < nodes.len() implies #[trigger] self.node_map@.contains_key(
                nodes[i],
            ) && self.node_map@[nodes[i]] == i by {
                if i < old_nodes.len() {
                    assert(nodes[i] == old_nodes[i]);
                    assert(old(self).node_map@.contains_key(old_nodes[i]));
                }
            }
            assert forall|a: u128, b: u128|
                old(self).spec_contains(a) && old(self).spec_contains(b) implies (
            #[trigger] self.spec_depends_on(a, b) <==> old(self).spec_depends_on(a, b)) by {
                assert(self.node_map@[a] == old(self).node_map@[a]);
                assert(self.node_map@[b] == old(self).node_map@[b]);
            }
        }
        Ok(())
    }

    /// Get a goal by id.
    pub fn get_goal(&self, id: u128) -> (r: Option<&Goal>)
        requires
            self.wf(),
        ensures
            match r {
                Some(g) => self.spec_contains(id) && *g == self.spec_goal(id),
                None => !self.spec_contains(id),
            },
    {
        match self.node_map.get(&id) {
            Some(i) => Some(&self.goals[*i]),
            None => None,
        }
    }

    /// Whether every dependency listed by goal `goal_id` is a completed goal of
    /// the graph; `false` for an unknown goal.
    pub fn dependencies_satisfied(&self, goal_id: u128) -> (b: bool)
        requires
            self.wf(),
        ensures
            b == self.spec_dependencies_satisfied(goal_id),
    {
        let i = match self.node_map.get(&goal_id) {
            Some(i) => *i,
            None => return false,
        };
        let deps = &self.goals[i].dependencies;
        let mut k: usize = 0;
        while k < deps.len()
            invariant
                self.wf(),
                self.spec_contains(goal_id),
                i == self.node_map@[goal_id],
                deps@ == self.spec_goal(goal_id).dependencies@,
                k <= deps@.len(),
                forall|m: int|
                    0 <= m < k ==> {
                        let d = #[trigger] deps@[m];
                        self.spec_contains(d) && self.spec_goal(d).status == GoalStatus::Completed
                    },
            decreases deps.len() - k,
        {
            let d = deps[k];
            match self.node_map.get(&d) {
                Some(j) => {
                    if self.goals[*j].status != GoalStatus::Completed {
                        return false;
                    }
                },
                None => return false,
            }
            k = k + 1;
        }
        true
    }

    /// The ids of the goals that can be worked on: ready, or pending with
    /// their dependencies satisfied. Each such goal appears once.
    pub fn get_ready_goals(&self) -> (r: Vec<u128>)
        requires
            self.wf(),
        ensures
            r@.no_duplicates(),
            forall|id: u128| #[trigger] r@.contains(id) <==> self.spec_is_ready(id),
    {
        let mut r: Vec<u128> = Vec::new();
        let n = self.goals.len();
        let mut i: usize = 0;
        while i < n
            invariant
                self.wf(),
                n == self.spec_len(),
                i <= n,
                r@.no_duplicates(),
                forall|id: u128|
                    #[trigger] r@.contains(id) <==> (self.spec_is_ready(id) && self.node_map@[id]
                        < i),
            decreases n - i,
        {
            let id = graph_weight(&self.graph, i);
            let ready = match self.goals[i].status {
                GoalStatus::Ready => true,
                GoalStatus::Pending => self.dependencies_satisfied(id),
                _ => false,
            };
            proof {
                assert(self.node_map@.contains_key(graph_nodes(self.graph)[i as int]));
                assert(self.node_map@.contains_key(id) && self.node_map@[id] == i);
            }
            if ready {
                proof {
                    assert(!r@.contains(id));
                }
                let ghost r0 = r@;
                r.push(id);
                proof {
                    assert(r@ == r0.push(id));
                    assert(r@[r0.len() as int] == id);
                    assert forall|x: u128| #[trigger] r@.contains(x) <==> (self.spec_is_ready(x)
                        && self.node_map@[x] < i + 1) by {
                        if x != id {
                            if r@.contains(x) {
                                let k = choose|k: int| 0 <= k < r@.len() && r@[k] == x;
                                assert(r0[k] == x);
                                assert(r0.contains(x));
                            }
                            if r0.contains(x) {
                                let k = choose|k: int| 0 <= k < r0.len() && r0[k] == x;
                                assert(r@[k] == x);
                            }
                            if self.spec_contains(x) && self.node_map@[x] == i {
                                assert(x == id);
                            }
                        }
                    }
                }
            } else {
                proof {
                    assert forall|x: u128| #[trigger] r@.contains(x) <==> (self.spec_is_ready(x)
                        && self.node_map@[x] < i + 1) by {
                        if self.spec_contains(x) && self.node_map@[x] == i {
                            assert(x == id);
                        }
                    }
                }
            }
            i = i + 1;
        }
        proof {
            assert forall|id: u128| #[trigger] r@.contains(id) <==> self.spec_is_ready(id) by {
                if self.spec_contains(id) {
                    assert(self.node_map@[id] < n);
                }
            }
        }
        r
    }

    /// Remove a goal, and every dependency edge that touches it, and return it.
    pub fn remove_goal(&mut self, id: u128) -> (r: Result<Goal, DagError>)
        requires
            old(self).wf(),
        ensures
            final(self).wf(),
            !old(self).spec_contains(id) ==> r == Err::<Goal, DagError>(DagError::NodeNotFound(id))
                && *final(self) == *old(self),
            old(self).spec_contains(id) ==> {
                &&& r == Ok::<Goal, DagError>(old(self).spec_goal(id))
                &&& final(self).spec_len() + 1 == old(self).spec_len()
                &&& forall|x: u128|
                    #[trigger] final(self).spec_contains(x) <==> (old(self).spec_contains(x) && x
                        != id)
                &&& forall|x: u128|
                    #[trigger] final(self).spec_contains(x) ==> final(self).spec_goal(x) == old(
                        self,
                    ).spec_goal(x)
                &&& forall|a: u128, b: u128|
                    final(self).spec_contains(a) && final(self).spec_contains(b) ==> (
                    #[trigger] final(self).spec_depends_on(a, b) <==> old(self).spec_depends_on(
                        a,
                        b,
                    ))
            },
    {
        let idx = match self.node_map.get(&id) {
            Some(i) => *i,
            None => return Err(DagError::NodeNotFound(id)),
        };
        self.node_map.remove(&id);
        let ghost old_nodes = graph_nodes(self.graph);
        let ghost old_edges = graph_edges(self.graph);
        let ghost n = old_nodes.len() as int;
        let ghost old_map = old(self).node_map@;
        graph_remove_node(&mut self.graph, idx);
        let goal = self.goals.swap_remove(idx);
        if idx < self.goals.len() {
            let moved = graph_weight(&self.graph, idx);
            self.node_map.insert(moved, idx);
        }
        proof {
            let nodes = graph_nodes(self.graph);
            let edges = graph_edges(self.graph);
            let m = old_nodes[n - 1];
            assert(old_map.contains_key(m) && old_map[m] == n - 1);
            assert forall|i: int| 0 <= i < nodes.len() implies #[trigger] self.node_map@.contains_key(
                nodes[i],
            ) && self.node_map@[nodes[i]] == i by {
                if i == idx {
                    assert(nodes[i] == m);
                } else {
                    assert(nodes[i] == old_nodes[i]);
                    assert(old(self).node_map@.contains_key(graph_nodes(old(self).graph)[i]));
                    assert(old_map.contains_key(old_nodes[i]) && old_map[old_nodes[i]] == i);
                    assert(old_nodes[i] != id);
                    assert(old_nodes[i] != m);
                }
            }
            assert forall|x: u128| #[trigger] self.node_map@.contains_key(x) implies self.node_map@[x]
                < nodes.len() && nodes[self.node_map@[x] as int] == x by {
                if x != m {
                    assert(old_map.contains_key(x));
                    assert(x != id);
                    assert(old_map[x] != idx);
                    assert(old_map[x] != n - 1);
                }
            }
            assert forall|i: int| 0 <= i < edges.len() implies (#[trigger] edges[i]).0 < nodes.len()
                && edges[i].1 < nodes.len() by {
                assert(has_edge(edges, edges[i].0 as int, edges[i].1 as int));
                let k = choose|k: int|
                    0 <= k < old_edges.len() && old_edges[k].0 != idx && old_edges[k].1 != idx
                        && renamed_after_removal(#[trigger] old_edges[k].0 as int, idx as int, n)
                        == edges[i].0 && renamed_after_removal(old_edges[k].1 as int, idx as int, n)
                        == edges[i].1;
                assert(old_edges[k].0 < n && old_edges[k].1 < n);
            }
            lemma_acyclic_after_removal(old_edges, edges, idx as int, n);
            assert forall|x: u128| #[trigger] self.spec_contains(x) implies self.spec_goal(x) == old(
                self,
            ).spec_goal(x) by {
                if x != m {
                    assert(old_map[x] != idx && old_map[x] != n - 1);
                }
            }
            assert forall|a: u128, b: u128|
                self.spec_contains(a) && self.spec_contains(b) implies (#[trigger] self.spec_depends_on(
                a,
                b,
            ) <==> old(self).spec_depends_on(a, b)) by {
                assert(old_map.contains_key(a) && old_map.contains_key(b));
                assert(old_map[a] != idx && old_map[b] != idx);
                assert(self.node_map@[a] == renamed_after_removal(old_map[a] as int, idx as int, n));
                assert(self.node_map@[b] == renamed_after_removal(old_map[b] as int, idx as int, n));
                lemma_edge_after_removal(
                    old_edges,
                    edges,
                    idx as int,
                    n,
                    old_map[b] as int,
                    old_map[a] as int,
                );
            }
        }
        Ok(goal)
    }

    /// Add a dependency: `from` depends on `to` (`to` must complete before `from`).
    ///
    /// Refused when either goal is missing, when `from` lists `to` as an
    /// anti-dependency, or when `to` already depends, directly or not, on
    /// `from` (the edge would close a cycle).
    pub fn add_dependency(&mut self, from: u128, to: u128) -> (r: Result<(), DagError>)
        requires
            old(self).wf(),
            old(self).spec_edge_count() + 1 < u32::MAX,
        ensures
            final(self).wf(),
            !old(self).spec_contains(from) ==> r == Err::<(), DagError>(
                DagError::NodeNotFound(from),
            ),
            old(self).spec_contains(from) && !old(self).spec_contains(to) ==> r == Err::<
                (),
                DagError,
            >(DagError::NodeNotFound(to)),
            old(self).spec_contains(from) && old(self).spec_contains(to) && old(self).spec_goal(
                from,
            ).anti_dependencies@.contains(to) ==> r == Err::<(), DagError>(
                DagError::AntiDependencyConflict { goal: from, blocked: to },
            ),
            old(self).spec_contains(from) && old(self).spec_contains(to) && !old(self).spec_goal(
                from,
            ).anti_dependencies@.contains(to) && old(self).spec_reaches(from, to) ==> r == Err::<
                (),
                DagError,
            >(DagError::WouldCreateCycle { from, to }),
            r is Err ==> *final(self) == *old(self),
            r is Ok <==> (old(self).spec_contains(from) && old(self).spec_contains(to)
                && !old(self).spec_goal(from).anti_dependencies@.contains(to) && !old(
                self,
            ).spec_reaches(from, to)),
            r is Ok ==> {
                &&& final(self).spec_len() == old(self).spec_len()
                &&& final(self).spec_edge_count() == old(self).spec_edge_count() + 1
                &&& forall|x: u128| #[trigger]
                    final(self).spec_contains(x) <==> old(self).spec_contains(x)
                &&& forall|a: u128, b: u128|
                    old(self).spec_contains(a) && old(self).spec_contains(b) ==> (
                    #[trigger] final(self).spec_depends_on(a, b) <==> (old(self).spec_depends_on(
                        a,
                        b,
                    ) || (a == from && b == to)))
                &&& forall|x: u128|
                    #[trigger] old(self).spec_contains(x) && x != from ==> final(self).spec_goal(x)
                        == old(self).spec_goal(x)
                &&& final(self).spec_goal(from).id == old(self).spec_goal(from).id
                &&& final(self).spec_goal(from).description == old(self).spec_goal(from).description
                &&& final(self).spec_goal(from).anti_dependencies == old(self).spec_goal(
                    from,
                ).anti_dependencies
                &&& final(self).spec_goal(from).status == old(self).spec_goal(from).status
                &&& final(self).spec_goal(from).dependencies@ == if old(self).spec_goal(
                    from,
                ).dependencies@.contains(to) {
                    old(self).spec_goal(from).dependencies@
                } else {
                    old(self).spec_goal(from).dependencies@.push(to)
                }
            },
    {
        let from_idx = match self.node_map.get(&from) {
            Some(i) => *i,
            None => return Err(DagError::NodeNotFound(from)),
        };
        let to_idx = match self.node_map.get(&to) {
            Some(i) => *i,
            None => return Err(DagError::NodeNotFound(to)),
        };
        if contains_id(&self.goals[from_idx].anti_dependencies, to) {
            return Err(DagError::AntiDependencyConflict { goal: from, blocked: to });
        }
        if graph_has_path(&self.graph, from_idx, to_idx) {
            return Err(DagError::WouldCreateCycle { from, to });
        }
        let ghost old_edges = graph_edges(self.graph);
        graph_add_edge(&mut self.graph, to_idx, from_idx);
        proof {
            lemma_acyclic_add_edge(old_edges, to_idx, from_idx);
            let edges = graph_edges(self.graph);
            assert forall|a: u128, b: u128|
                old(self).spec_contains(a) && old(self).spec_contains(b) implies (
            #[trigger] self.spec_depends_on(a, b) <==> (old(self).spec_depends_on(a, b) || (a
                == from && b == to))) by {
                let ia = self.node_map@[a] as int;
                let ib = self.node_map@[b] as int;
                if has_edge(edges, ib, ia) {
                    let k = choose|k: int| 0 <= k < edges.len() && edges[k].0 == ib && edges[k].1 == ia;
                    if k < old_edges.len() {
                        assert(old_edges[k] == edges[k]);
                    } else {
                        assert(edges[k] == (to_idx, from_idx));
                    }
                }
                if has_edge(old_edges, ib, ia) {
                    let k = choose|k: int|
                        0 <= k < old_edges.len() && old_edges[k].0 == ib && old_edges[k].1 == ia;
                    assert(edges[k] == old_edges[k]);
                }
                if a == from && b == to {
                    assert(edges[old_edges.len() as int] == (to_idx, from_idx));
                }
            }
        }
        let ghost mid = *self;
        if !contains_id(&self.goals[from_idx].dependencies, to) {
            self.goals[from_idx].dependencies.push(to);
        }
        proof {
            assert forall|x: u128| #[trigger] old(self).spec_contains(x) && x != from implies self.spec_goal(
                x,
            ) == old(self).spec_goal(x) by {
                assert(self.node_map@[x] != from_idx);
            }
            assert forall|a: u128, b: u128|
                old(self).spec_contains(a) && old(self).spec_contains(b) implies (
            #[trigger] self.spec_depends_on(a, b) <==> (old(self).spec_depends_on(a, b) || (a
                == from && b == to))) by {
                assert(mid.spec_depends_on(a, b) <==> (old(self).spec_depends_on(a, b) || (a
                    == from && b == to)));
            }
        }
        Ok(())
    }

    /// Remove the dependency "`from` depends on `to`": one edge `to -> from`
    /// goes, and `to` leaves the dependency list of `from`.
    #[verifier::spinoff_prover]
    pub fn remove_dependency(&mut self, from: u128, to: u128) -> (r: Result<(), DagError>)
        requires
            old(self).wf(),
        ensures
            final(self).wf(),
            !old(self).spec_contains(from) ==> r == Err::<(), DagError>(
                DagError::NodeNotFound(from),
            ),
            old(self).spec_contains(from) && !old(self).spec_contains(to) ==> r == Err::<
                (),
                DagError,
            >(DagError::NodeNotFound(to)),
            old(self).spec_contains(from) && old(self).spec_contains(to) && !old(
                self,
            ).spec_depends_on(from, to) ==> r == Err::<(), DagError>(
                DagError::EdgeNotFound { from, to },
            ),
            r is Err ==> *final(self) == *old(self),
            r is Ok <==> (old(self).spec_contains(from) && old(self).spec_contains(to) && old(
                self,
            ).spec_depends_on(from, to)),
            r is Ok ==> {
                &&& final(self).spec_len() == old(self).spec_len()
                &&& final(self).spec_edge_count() + 1 == old(self).spec_edge_count()
                &&& forall|x: u128| #[trigger]
                    final(self).spec_contains(x) <==> old(self).spec_contains(x)
                &&& forall|a: u128, b: u128|
                    old(self).spec_contains(a) && old(self).spec_contains(b) && !(a == from && b
                        == to) ==> (#[trigger] final(self).spec_depends_on(a, b) <==> old(
                        self,
                    ).spec_depends_on(a, b))
                &&& forall|x: u128|
                    #[trigger] old(self).spec_contains(x) && x != from ==> final(self).spec_goal(x)
                        == old(self).spec_goal(x)
                &&& final(self).spec_goal(from).id == old(self).spec_goal(from).id
                &&& final(self).spec_goal(from).description == old(self).spec_goal(from).description
                &&& final(self).spec_goal(from).anti_dependencies == old(self).spec_goal(
                    from,
                ).anti_dependencies
                &&& final(self).spec_goal(from).status == old(self).spec_goal(from).status
                &&& final(self).spec_goal(from).dependencies@ == old(self).spec_goal(
                    from,
                ).dependencies@.filter(other_than(to))
            },
    {
        let from_idx = match self.node_map.get(&from) {
            Some(i) => *i,
            None => return Err(DagError::NodeNotFound(from)),
        };
        let to_idx = match self.node_map.get(&to) {
            Some(i) => *i,
            None => return Err(DagError::NodeNotFound(to)),
        };
        let e = match graph_find_edge(&self.graph, to_idx, from_idx) {
            Some(e) => e,
            None => return Err(DagError::EdgeNotFound { from, to }),
        };
        let ghost old_edges = graph_edges(self.graph);
        graph_remove_edge(&mut self.graph, e);
        proof {
            let edges = graph_edges(self.graph);
            assert forall|i: int| 0 <= i < edges.len() implies (#[trigger] edges[i]).0 < graph_nodes(
                self.graph,
            ).len() && edges[i].1 < graph_nodes(self.graph).len() by {
                if i == e {
                    assert(edges[i] == old_edges[old_edges.len() - 1]);
                } else {
                    assert(edges[i] == old_edges[i]);
                }
            }
            assert forall|a: u128, b: u128|
                old(self).spec_contains(a) && old(self).spec_contains(b) && !(a == from && b
                    == to) implies (#[trigger] self.spec_depends_on(a, b) <==> old(
                self,
            ).spec_depends_on(a, b)) by {
                let ia = self.node_map@[a] as int;
                let ib = self.node_map@[b] as int;
                assert((ib, ia) != (to_idx as int, from_idx as int));
                if has_edge(edges, ib, ia) {
                    let k = choose|k: int| 0 <= k < edges.len() && edges[k].0 == ib && edges[k].1 == ia;
                    if k == e {
                        assert(edges[k] == old_edges[old_edges.len() - 1]);
                    } else {
                        assert(edges[k] == old_edges[k]);
                    }
                }
                if has_edge(old_edges, ib, ia) {
                    let k = choose|k: int|
                        0 <= k < old_edges.len() && old_edges[k].0 == ib && old_edges[k].1 == ia;
                    if k == old_edges.len() - 1 {
                        assert(edges[e as int] == old_edges[k]);
                    } else {
                        assert(k != e);
                        assert(edges[k] == old_edges[k]);
                    }
                }
            }
            assert forall|a: int, b: int| #[trigger] has_edge(edges, a, b) implies has_edge(
                old_edges,
                a,
                b,
            ) by {
                let k = choose|k: int| 0 <= k < edges.len() && edges[k].0 == a && edges[k].1 == b;
                if k == e {
                    assert(edges[k] == old_edges[old_edges.len() - 1]);
                } else {
                    assert(edges[k] == old_edges[k]);
                }
            }
            lemma_acyclic_subgraph(old_edges, edges);
        }
        let ghost old_deps = self.goals@[from_idx as int].dependencies@;
        let mut kept: Vec<u128> = Vec::new();
        let deps = &self.goals[from_idx].dependencies;
        let mut k: usize = 0;
        while k < deps.len()
            invariant
                k <= deps@.len(),
                deps@ == old_deps,
                kept@ == old_deps.take(k as int).filter(other_than(to)),
            decreases deps.len() - k,
        {
            proof {
                assert(old_deps.take(k as int + 1) == old_deps.take(k as int).push(old_deps[k as int]));
                old_deps.take(k as int).lemma_filter_push(old_deps[k as int], other_than(to));
            }
            if deps[k] != to {
                kept.push(deps[k]);
            }
            k = k + 1;
        }
        proof {
            assert(old_deps.take(old_deps.len() as int) == old_deps);
        }
        let ghost mid = *self;
        self.goals[from_idx].dependencies = kept;
        proof {
            assert forall|a: u128, b: u128|
                old(self).spec_contains(a) && old(self).spec_contains(b) && !(a == from && b
                    == to) implies (#[trigger] self.spec_depends_on(a, b) <==> old(
                self,
            ).spec_depends_on(a, b)) by {
                assert(mid.spec_depends_on(a, b) <==> old(self).spec_depends_on(a, b));
            }
            assert forall|x: u128| #[trigger] old(self).spec_contains(x) && x != from implies self.spec_goal(
                x,
            ) == old(self).spec_goal(x) by {
                assert(self.node_map@[x] != from_idx);
            }
        }
        Ok(())
    }

    /// Number of edges into the node of goal `id`: its dependency edges.
    pub closed spec fn spec_dependency_edges(&self, id: u128) -> nat {
        graph_edges(self.graph).filter(ends_in(self.node_map@[id] as int)).len()
    }

    /// Number of edges out of the node of goal `id`: edges to its dependents.
    pub closed spec fn spec_dependent_edges(&self, id: u128) -> nat {
        graph_edges(self.graph).filter(starts_in(self.node_map@[id] as int)).len()
    }

    /// Map node indices to goal ids.
    fn ids_of(&self, idxs: &Vec<usize>) -> (r: Vec<u128>)
        requires
            self.wf(),
            forall|k: int| 0 <= k < idxs@.len() ==> #[trigger] idxs@[k] < self.spec_len(),
        ensures
            r@.len() == idxs@.len(),
            forall|k: int|
                0 <= k < r@.len() ==> #[trigger] r@[k] == graph_nodes(self.graph)[idxs@[k] as int],
    {
        let mut r: Vec<u128> = Vec::new();
        let mut k: usize = 0;
        while k < idxs.len()
            invariant
                self.wf(),
                forall|m: int| 0 <= m < idxs@.len() ==> #[trigger] idxs@[m] < self.spec_len(),
                k <= idxs@.len(),
                r@.len() == k,
                forall|m: int|
                    0 <= m < k ==> #[trigger] r@[m] == graph_nodes(self.graph)[idxs@[m] as int],
            decreases idxs.len() - k,
        {
            let id = graph_weight(&self.graph, idxs[k]);
            r.push(id);
            k = k + 1;
        }
        r
    }

    /// The direct dependencies of a goal: the goals it has a dependency edge
    /// from, once per edge.
    pub fn get_dependencies(&self, goal_id: u128) -> (r: Result<Vec<u128>, DagError>)
        requires
            self.wf(),
        ensures
            !self.spec_contains(goal_id) ==> r == Err::<Vec<u128>, DagError>(
                DagError::NodeNotFound(goal_id),
            ),
            self.spec_contains(goal_id) ==> (r matches Ok(ids) && ids@.len()
                == self.spec_dependency_edges(goal_id) && forall|x: u128| #[trigger]
                ids@.contains(x) <==> (self.spec_contains(x) && self.spec_depends_on(goal_id, x))),
    {
        let i = match self.node_map.get(&goal_id) {
            Some(i) => *i,
            None => return Err(DagError::NodeNotFound(goal_id)),
        };
        let idxs = graph_neighbors(&self.graph, i, true);
        let ghost edges = graph_edges(self.graph);
        let ghost nodes = graph_nodes(self.graph);
        proof {
            assert forall|k: int| 0 <= k < idxs@.len() implies #[trigger] idxs@[k] < self.spec_len() by {
                let j = idxs@[k];
                assert(idxs@.contains(j));
                vstd::seq_lib::to_multiset_contains(idxs@, j);
                lemma_incoming_sources(edges, i as int, j);
                let e = choose|e: int| 0 <= e < edges.len() && edges[e].0 == j && edges[e].1 == i;
                assert(edges[e].0 < nodes.len());
            }
        }
        let ids = self.ids_of(&idxs);
        proof {
            vstd::seq_lib::to_multiset_len(idxs@);
            vstd::seq_lib::to_multiset_len(edges.filter(ends_in(i as int)).map_values(
                crate::graph::edge_source(),
            ));
            assert forall|x: u128| #[trigger] ids@.contains(x) <==> (self.spec_contains(x)
                && self.spec_depends_on(goal_id, x)) by {
                if ids@.contains(x) {
                    let k = choose|k: int| 0 <= k < ids@.len() && ids@[k] == x;
                    let j = idxs@[k];
                    assert(idxs@.contains(j));
                    vstd::seq_lib::to_multiset_contains(idxs@, j);
                    lemma_incoming_sources(edges, i as int, j);
                    assert(j < nodes.len());
                    assert(self.node_map@.contains_key(nodes[j as int]));
                }
                if self.spec_contains(x) && self.spec_depends_on(goal_id, x) {
                    let j = self.node_map@[x];
                    lemma_incoming_sources(edges, i as int, j);
                    vstd::seq_lib::to_multiset_contains(idxs@, j);
                    let k = choose|k: int| 0 <= k < idxs@.len() && idxs@[k] == j;
                    assert(ids@[k] == x);
                }
            }
        }
        Ok(ids)
    }

    /// The goals that directly depend on a goal: those it has a dependency
    /// edge to, once per edge.
    pub fn get_dependents(&self, goal_id: u128) -> (r: Result<Vec<u128>, DagError>)
        requires
            self.wf(),
        ensures
            !self.spec_contains(goal_id) ==> r == Err::<Vec<u128>, DagError>(
                DagError::NodeNotFound(goal_id),
            ),
            self.spec_contains(goal_id) ==> (r matches Ok(ids) && ids@.len()
                == self.spec_dependent_edges(goal_id) && forall|x: u128| #[trigger]
                ids@.contains(x) <==> (self.spec_contains(x) && self.spec_depends_on(x, goal_id))),
    {
        let i = match self.node_map.get(&goal_id) {
            Some(i) => *i,
            None => return Err(DagError::NodeNotFound(goal_id)),
        };
        let idxs = graph_neighbors(&self.graph, i, false);
        let ghost edges = graph_edges(self.graph);
        let ghost nodes = graph_nodes(self.graph);
        proof {
            assert forall|k: int| 0 <= k < idxs@.len() implies #[trigger] idxs@[k] < self.spec_len() by {
                let j = idxs@[k];
                assert(idxs@.contains(j));
                vstd::seq_lib::to_multiset_contains(idxs@, j);
                lemma_outgoing_targets(edges, i as int, j);
                let e = choose|e: int| 0 <= e < edges.len() && edges[e].0 == i && edges[e].1 == j;
                assert(edges[e].1 < nodes.len());
            }
        }
        let ids = self.ids_of(&idxs);
        proof {
            vstd::seq_lib::to_multiset_len(idxs@);
            vstd::seq_lib::to_multiset_len(edges.filter(starts_in(i as int)).map_values(
                crate::graph::edge_target(),
            ));
            assert forall|x: u128| #[trigger] ids@.contains(x) <==> (self.spec_contains(x)
                && self.spec_depends_on(x, goal_id)) by {
                if ids@.contains(x) {
                    let k = choose|k: int| 0 <= k < ids@.len() && ids@[k] == x;
                    let j = idxs@[k];
                    assert(idxs@.contains(j));
                    vstd::seq_lib::to_multiset_contains(idxs@, j);
                    lemma_outgoing_targets(edges, i as int, j);
                    assert(j < nodes.len());
                    assert(self.node_map@.contains_key(nodes[j as int]));
                }
                if self.spec_contains(x) && self.spec_depends_on(x, goal_id) {
                    let j = self.node_map@[x];
                    lemma_outgoing_targets(edges, i as int, j);
                    vstd::seq_lib::to_multiset_contains(idxs@, j);
                    let k = choose|k: int| 0 <= k < idxs@.len() && idxs@[k] == j;
                    assert(ids@[k] == x);
                }
            }
        }
        Ok(ids)
    }

    /// The goals in an order in which every dependency comes before the goals
    /// that depend on it. The graph is acyclic, so this always succeeds.
    pub fn topological_sort(&self) -> (r: Result<Vec<u128>, DagError>)
        requires
            self.wf(),
        ensures
            r matches Ok(ids) && {
                &&& ids@.len() == self.spec_len()
                &&& ids@.no_duplicates()
                &&& forall|x: u128| #[trigger] ids@.contains(x) <==> self.spec_contains(x)
                &&& forall|i: int, j: int|
                    0 <= i < ids@.len() && 0 <= j < ids@.len() && self.spec_depends_on(
                        #[trigger] ids@[j],
                        #[trigger] ids@[i],
                    ) ==> i < j
            },
    {
        match graph_toposort(&self.graph) {
            Ok(order) => {
                let ghost nodes = graph_nodes(self.graph);
                let ghost edges = graph_edges(self.graph);
                let ids = self.ids_of(&order);
                proof {
                    assert(order@.len() == order.len());
                    lemma_order_covers(order@, nodes.len());
                    assert forall|a: int, b: int|
                        0 <= a < ids@.len() && 0 <= b < ids@.len() && a != b implies ids@[a]
                        != ids@[b] by {
                        assert(order@[a] != order@[b]);
                        assert(self.node_map@.contains_key(nodes[order@[a] as int]));
                        assert(self.node_map@.contains_key(nodes[order@[b] as int]));
                        assert(self.node_map@[nodes[order@[a] as int]] == order@[a]);
                        assert(self.node_map@[nodes[order@[b] as int]] == order@[b]);
                    }
                    assert forall|x: u128| #[trigger] ids@.contains(x) <==> self.spec_contains(x) by {
                        if ids@.contains(x) {
                            let k = choose|k: int| 0 <= k < ids@.len() && ids@[k] == x;
                            assert(self.node_map@.contains_key(nodes[order@[k] as int]));
                        }
                        if self.spec_contains(x) {
                            let j = self.node_map@[x];
                            assert(order@.contains(j));
                            let k = choose|k: int| 0 <= k < order@.len() && order@[k] == j;
                            assert(ids@[k] == x);
                        }
                    }
                    assert forall|i: int, j: int|
                        0 <= i < ids@.len() && 0 <= j < ids@.len() && self.spec_depends_on(
                            #[trigger] ids@[j],
                            #[trigger] ids@[i],
                        ) implies i < j by {
                        assert(self.node_map@.contains_key(nodes[order@[i] as int]));
                        assert(self.node_map@.contains_key(nodes[order@[j] as int]));
                        assert(self.node_map@[nodes[order@[i] as int]] == order@[i]);
                        assert(self.node_map@[nodes[order@[j] as int]] == order@[j]);
                        assert(has_edge(edges, order@[i] as int, order@[j] as int));
                    }
                }
                Ok(ids)
            },
            Err(c) => {
                proof {
                    assert(false);
                }
                let mut cycle: Vec<u128> = Vec::new();
                cycle.push(graph_weight(&self.graph, c));
                Err(DagError::CycleDetected(cycle))
            },
        }
    }

    /// A cycle of goals if the graph had one. The graph is acyclic, so this is always `None`.
    pub fn detect_cycle(&self) -> (r: Option<Vec<u128>>)
        requires
            self.wf(),
        ensures
            r is None,
    {
        let sccs = graph_tarjan_scc(&self.graph);
        let mut c: usize = 0;
        while c < sccs.len()
            invariant
                self.wf(),
                forall|m: int| 0 <= m < sccs@.len() ==> (#[trigger] sccs@[m])@.no_duplicates(),
                forall|m: int, x: int, y: int|
                    0 <= m < sccs@.len() && 0 <= x < sccs@[m]@.len() && 0 <= y < sccs@[m]@.len()
                        ==> reachable(
                        graph_edges(self.graph),
                        #[trigger] sccs@[m]@[x] as int,
                        #[trigger] sccs@[m]@[y] as int,
                    ),
                c <= sccs@.len(),
            decreases sccs.len() - c,
        {
            if sccs[c].len() > 1 {
                proof {
                    let comp = sccs@[c as int]@;
                    assert(comp[0] != comp[1]);
                    assert(reachable(graph_edges(self.graph), comp[0] as int, comp[1] as int));
                    assert(reachable(graph_edges(self.graph), comp[1] as int, comp[0] as int));
                    lemma_mutual_reach_not_acyclic(
                        graph_edges(self.graph),
                        comp[0] as int,
                        comp[1] as int,
                    );
                }
                let mut bad: Vec<u128> = Vec::new();
                return Some(bad);
            }
            c = c + 1;
        }
        None
    }

    /// The ids that the stored goals carry, in storage order.
    pub closed spec fn spec_goal_ids(&self) -> Seq<u128> {
        self.goals@.map_values(|g: Goal| g.id)
    }

    /// The ids that the stored goals carry, in storage order.
    pub fn goal_ids(&self) -> (r: Vec<u128>)
        ensures
            r@ == self.spec_goal_ids(),
    {
        let mut r: Vec<u128> = Vec::new();
        let mut i: usize = 0;
        while i < self.goals.len()
            invariant
                i <= self.goals@.len(),
                r@ == self.goals@.take(i as int).map_values(|g: Goal| g.id),
            decreases self.goals.len() - i,
        {
            r.push(self.goals[i].id);
            proof {
                assert(self.goals@.take(i as int + 1).map_values(|g: Goal| g.id) =~= self.goals@.take(
                    i as int,
                ).map_values(|g: Goal| g.id).push(self.goals@[i as int].id));
            }
            i = i + 1;
        }
        proof {
            assert(self.goals@.take(self.goals@.len() as int) == self.goals@);
        }
        r
    }

    /// The stored goals, in storage order.
    pub closed spec fn spec_goal_list(&self) -> Seq<Goal> {
        self.goals@
    }

    /// The goals, in storage order.
    pub fn goals(&self) -> (r: Vec<&Goal>)
        ensures
            r@.map_values(|g: &Goal| *g) == self.spec_goal_list(),
            r@.map_values(|g: &Goal| g.id) == self.spec_goal_ids(),
    {
        let mut r: Vec<&Goal> = Vec::new();
        let mut i: usize = 0;
        while i < self.goals.len()
            invariant
                i <= self.goals@.len(),
                r@.map_values(|g: &Goal| *g) == self.goals@.take(i as int),
            decreases self.goals.len() - i,
        {
            let ghost prev = r@;
            r.push(&self.goals[i]);
            proof {
                assert(r@ == prev.push(&self.goals@[i as int]));
                assert(r@.map_values(|g: &Goal| *g) =~= prev.map_values(|g: &Goal| *g).push(
                    self.goals@[i as int],
                ));
                assert(self.goals@.take(i as int + 1) =~= self.goals@.take(i as int).push(
                    self.goals@[i as int],
                ));
            }
            i = i + 1;
        }
        proof {
            assert(self.goals@.take(self.goals@.len() as int) == self.goals@);
            assert(r@.map_values(|g: &Goal| g.id) =~= self.goals@.map_values(|g: Goal| g.id));
        }
        r
    }

    /// Get a goal by id for modification. The graph's structure is unchanged;
    /// only that goal can change, and by what the caller writes through the reference.
    pub fn get_goal_mut(&mut self, id: u128) -> (r: Option<&mut Goal>)
        requires
            old(self).wf(),
        ensures
            final(self).wf(),
            final(self).spec_len() == old(self).spec_len(),
            final(self).spec_edge_count() == old(self).spec_edge_count(),
            forall|x: u128| #[trigger] final(self).spec_contains(x) <==> old(self).spec_contains(x),
            forall|a: u128, b: u128|
                #[trigger] final(self).spec_depends_on(a, b) <==> old(self).spec_depends_on(a, b),
            forall|x: u128|
                #[trigger] old(self).spec_contains(x) && x != id ==> final(self).spec_goal(x) == old(
                    self,
                ).spec_goal(x),
            !old(self).spec_contains(id) ==> r is None && *final(self) == *old(self),
            old(self).spec_contains(id) ==> r is Some && *r->0 == old(self).spec_goal(id)
                && final(self).spec_goal(id) == *final(r->0),
    {
        match self.node_map.get(&id) {
            Some(i) => {
                let i = *i;
                proof {
                    assert forall|x: u128| #[trigger] old(self).spec_contains(x) && x != id implies self.node_map@[x] != i by {}
                }
                Some(&mut self.goals[i])
            },
            None => None,
        }
    }
}

} // verus!
