//! Semantic memory: a knowledge graph of concepts and the relations between
//! them, with lookup by name and breadth-first search for a shortest chain of
//! relations between two concepts.

use vstd::prelude::*;
use std::collections::HashMap;
use crate::predicate_eval::{find_key, lookup, upsert};
use crate::text::{lowercase, to_lowercase};
use vstd::std_specs::hash::spec_keys_iter;
use vstd::std_specs::iter::IteratorSpec;

verus! {

broadcast use vstd::std_specs::hash::group_hash_axioms;

/// Kinds of concept.
#[derive(Debug, Clone, Copy, PartialEq, Eq, Structural)]
pub enum ConceptType {
    /// A code entity (function, class, module)
    CodeEntity,
    /// A design pattern
    Pattern,
    /// A problem or bug
    Problem,
    /// A solution or fix
    Solution,
    /// A goal or objective
    Goal,
    /// A constraint or requirement
    Constraint,
    /// A technology or tool
    Technology,
    /// A general concept
    General,
}

/// A concept node. `activation` holds the bits of a fraction in [0, 1] that
/// decays over time.
#[derive(Debug, Clone)]
pub struct ConceptNode {
    pub id: u128,
    pub name: String,
    pub description: String,
    pub memory_ids: Vec<u128>,
    pub concept_type: ConceptType,
    pub activation: u64,
}

/// Kinds of relation between two concepts.
#[derive(Debug, Clone, Copy, PartialEq, Eq, Structural)]
pub enum RelationType {
    /// A is part of B
    PartOf,
    /// A depends on B
    DependsOn,
    /// A is similar to B
    SimilarTo,
    /// A causes B
    Causes,
    /// A solves B
    Solves,
    /// A implements B
    Implements,
    /// A uses B
    Uses,
    /// A is opposite of B
    OppositeOf,
    /// Generic association
    RelatedTo,
}

/// A relation from one concept to another. `strength` holds the bits of a
/// fraction in [0, 1].
#[derive(Debug, Clone, Copy)]
pub struct ConceptRelation {
    pub from: u128,
    pub to: u128,
    pub relation_type: RelationType,
    pub strength: u64,
}

/// The bits of `1.0`, the activation of a freshly added concept.
pub const FULL_ACTIVATION: u64 = 0x3FF0_0000_0000_0000u64;

/// The bits of `0.95`, the factor by which activations decay per query.
pub const DEFAULT_DECAY_RATE: u64 = 0x3FEE_6666_6666_6666u64;

/// Semantic memory: concepts by id, the relations between them in the order
/// they were added, and an index from lowercase names to ids.
#[derive(Debug)]
pub struct SemanticMemory {
    concepts: HashMap<u128, ConceptNode>,
    relations: Vec<ConceptRelation>,
    name_index: Vec<(String, u128)>,
    decay_rate: u64,
}

/// Relation `i` joins `a` and `b`, in either direction.
pub open spec fn linked(rels: Seq<ConceptRelation>, i: int, a: u128, b: u128) -> bool {
    &&& 0 <= i < rels.len()
    &&& ((rels[i].from == a && rels[i].to == b) || (rels[i].to == a && rels[i].from == b))
}

/// `n` is at most `k` relations away from `start`, the relations taken in
/// either direction.
pub open spec fn within(rels: Seq<ConceptRelation>, start: u128, n: u128, k: int) -> bool
    decreases k,
{
    if k <= 0 {
        n == start
    } else {
        ||| within(rels, start, n, k - 1)
        ||| exists|m: u128, i: int| within(rels, start, m, k - 1) && #[trigger] linked(rels, i, m, n)
    }
}

/// Some relation joins `a` and `b`.
pub open spec fn adjacent(rels: Seq<ConceptRelation>, a: u128, b: u128) -> bool {
    exists|i: int| #[trigger] linked(rels, i, a, b)
}

/// The concepts at positions `j` and `j + 1` of `p` are joined by a relation.
pub open spec fn step_at(rels: Seq<ConceptRelation>, p: Seq<u128>, j: int) -> bool {
    adjacent(rels, p[j], p[j + 1])
}

/// `p` is a chain of concepts from `start`, each joined to the next by a
/// relation.
pub open spec fn chain_from(rels: Seq<ConceptRelation>, start: u128, p: Seq<u128>) -> bool {
    &&& p.len() >= 1
    &&& p[0] == start
    &&& forall|j: int| 0 <= j < p.len() - 1 ==> #[trigger] step_at(rels, p, j)
}

/// `n` is exactly `k` relations away from `start`: within `k`, and not
/// within fewer.
pub open spec fn at_distance(rels: Seq<ConceptRelation>, start: u128, n: u128, k: int) -> bool {
    &&& within(rels, start, n, k)
    &&& (k > 0 ==> !within(rels, start, n, k - 1))
}

/// `p` is a shortest chain from `start`, of `k` relations.
pub open spec fn layer_chain(rels: Seq<ConceptRelation>, start: u128, p: Seq<u128>, k: int) -> bool {
    &&& p.len() == k + 1
    &&& chain_from(rels, start, p)
    &&& at_distance(rels, start, p.last(), k)
}

/// Being within `j` relations implies being within any larger number.
pub proof fn lemma_within_mono(rels: Seq<ConceptRelation>, s: u128, n: u128, j: int, k: int)
    requires
        0 <= j <= k,
        within(rels, s, n, j),
    ensures
        within(rels, s, n, k),
    decreases k,
{
    if j < k {
        lemma_within_mono(rels, s, n, j, k - 1);
    }
}

/// When one more relation reaches nothing new, no number of relations does.
proof fn lemma_within_stable(rels: Seq<ConceptRelation>, s: u128, b: int, c: int, j: int)
    requires
        0 <= b,
        c == b + 1,
        b <= j,
        forall|n: u128| #[trigger] within(rels, s, n, c) ==> within(rels, s, n, b),
    ensures
        forall|n: u128| #[trigger] within(rels, s, n, j) ==> within(rels, s, n, b),
    decreases j,
{
    if j > b {
        lemma_within_stable(rels, s, b, c, j - 1);
        assert forall|n: u128| #[trigger] within(rels, s, n, j) implies within(rels, s, n, b) by {
            if !within(rels, s, n, j - 1) {
                let (m, i) = choose|m: u128, i: int|
                    within(rels, s, m, j - 1) && #[trigger] linked(rels, i, m, n);
                assert(within(rels, s, m, b));
                assert(linked(rels, i, m, n));
                assert(within(rels, s, n, c));
            }
        }
    }
}

/// Relations are followed in either direction.
proof fn lemma_linked_symmetric(rels: Seq<ConceptRelation>, i: int, a: u128, b: u128)
    ensures
        linked(rels, i, a, b) == linked(rels, i, b, a),
{
}

/// Whatever is within `k` relations is the end of a chain of at most `k`
/// relations.
proof fn lemma_within_chain(rels: Seq<ConceptRelation>, s: u128, n: u128, k: int) -> (p: Seq<u128>)
    requires
        k >= 0,
        within(rels, s, n, k),
    ensures
        chain_from(rels, s, p),
        p.last() == n,
        p.len() <= k + 1,
    decreases k,
{
    if k == 0 {
        let p = seq![s];
        assert(p.last() == n);
        p
    } else if within(rels, s, n, k - 1) {
        lemma_within_chain(rels, s, n, k - 1)
    } else {
        let (m, i) = choose|m: u128, i: int| within(rels, s, m, k - 1) && #[trigger] linked(rels, i, m, n);
        let q = lemma_within_chain(rels, s, m, k - 1);
        let p = q.push(n);
        assert forall|j: int| 0 <= j < p.len() - 1 implies #[trigger] step_at(rels, p, j) by {
            if j < q.len() - 1 {
                assert(step_at(rels, q, j));
                assert(p[j] == q[j] && p[j + 1] == q[j + 1]);
            } else {
                assert(p[j] == m && p[j + 1] == n);
                assert(linked(rels, i, p[j], p[j + 1]));
            }
        }
        p
    }
}

/// The end of a chain of `p.len() - 1` relations is within that many.
proof fn lemma_chain_within(rels: Seq<ConceptRelation>, s: u128, p: Seq<u128>)
    requires
        chain_from(rels, s, p),
    ensures
        within(rels, s, p.last(), p.len() - 1),
    decreases p.len(),
{
    if p.len() > 1 {
        let q = p.drop_last();
        assert forall|j: int| 0 <= j < q.len() - 1 implies #[trigger] step_at(rels, q, j) by {
            assert(step_at(rels, p, j));
            assert(q[j] == p[j] && q[j + 1] == p[j + 1]);
        }
        lemma_chain_within(rels, s, q);
        assert(step_at(rels, p, p.len() - 2));
        let i = choose|i: int| #[trigger] linked(rels, i, p[p.len() - 2], p[p.len() - 1]);
        assert(q.last() == p[p.len() - 2]);
        assert(linked(rels, i, q.last(), p.last()));
    }
}

/// A chain read backwards is a chain.
proof fn lemma_chain_reverse(rels: Seq<ConceptRelation>, s: u128, p: Seq<u128>)
    requires
        chain_from(rels, s, p),
    ensures
        chain_from(rels, p.last(), p.reverse()),
        p.reverse().last() == s,
        p.reverse().len() == p.len(),
{
    let r = p.reverse();
    let n = p.len();
    assert forall|j: int| 0 <= j < r.len() - 1 implies #[trigger] step_at(rels, r, j) by {
        let a = n - 2 - j;
        assert(step_at(rels, p, a));
        let i = choose|i: int| #[trigger] linked(rels, i, p[a], p[a + 1]);
        assert(r[j] == p[a + 1] && r[j + 1] == p[a]);
        lemma_linked_symmetric(rels, i, p[a], p[a + 1]);
        assert(linked(rels, i, r[j], r[j + 1]));
    }
    assert(r[0] == p.last());
    assert(r.last() == p[0]);
}

/// Relations are followed in either direction, so `b` is within `k`
/// relations of `a` exactly when `a` is within `k` relations of `b`.
pub proof fn lemma_within_symmetric(rels: Seq<ConceptRelation>, a: u128, b: u128, k: int)
    requires
        k >= 0,
    ensures
        within(rels, a, b, k) == within(rels, b, a, k),
{
    if within(rels, a, b, k) {
        let p = lemma_within_chain(rels, a, b, k);
        lemma_chain_reverse(rels, a, p);
        lemma_chain_within(rels, b, p.reverse());
        lemma_within_mono(rels, b, a, p.len() - 1, k);
    }
    if within(rels, b, a, k) {
        let p = lemma_within_chain(rels, b, a, k);
        lemma_chain_reverse(rels, b, p);
        lemma_chain_within(rels, a, p.reverse());
        lemma_within_mono(rels, a, b, p.len() - 1, k);
    }
}

/// Pushing onto a list keeps what it held.
proof fn lemma_push_keeps(s: Seq<u128>, x: u128)
    ensures
        forall|n: u128| s.contains(n) ==> #[trigger] s.push(x).contains(n),
        s.push(x).contains(x),
{
    assert forall|n: u128| s.contains(n) implies #[trigger] s.push(x).contains(n) by {
        let k = choose|k: int| 0 <= k < s.len() && s[k] == n;
        assert(s.push(x)[k] == n);
    }
    assert(s.push(x)[s.len() as int] == x);
}

/// Membership of an id in a list.
fn has_id(v: &Vec<u128>, x: u128) -> (b: bool)
    ensures
        b == v@.contains(x),
{
    let mut i: usize = 0;
    while i < v.len()
        invariant
            i <= v@.len(),
            forall|j: int| 0 <= j < i ==> v@[j] != x,
        decreases v.len() - i,
    {
        if v[i] == x {
            assert(v@[i as int] == x);
            return true;
        }
        i = i + 1;
    }
    false
}

/// A copy of a list of ids.
fn copy_ids(v: &Vec<u128>) -> (r: Vec<u128>)
    ensures
        r@ == v@,
{
    let mut r: Vec<u128> = Vec::new();
    let mut i: usize = 0;
    while i < v.len()
        invariant
            i <= v@.len(),
            r@ == v@.take(i as int),
        decreases v.len() - i,
    {
        r.push(v[i]);
        proof {
            assert(v@.take(i as int + 1) == v@.take(i as int).push(v@[i as int]));
        }
        i = i + 1;
    }
    proof {
        assert(v@.take(v@.len() as int) == v@);
    }
    r
}

/// The relations among the first `n` that touch concept `id`, in order.
pub open spec fn touching_upto(rels: Seq<ConceptRelation>, id: u128, n: int) -> Seq<ConceptRelation>
    decreases n,
{
    if n <= 0 {
        Seq::empty()
    } else if rels[n - 1].from == id || rels[n - 1].to == id {
        touching_upto(rels, id, n - 1).push(rels[n - 1])
    } else {
        touching_upto(rels, id, n - 1)
    }
}

/// The concept that relation `r` leads to from `id`, when `r` touches `id`:
/// its other end, or `id` itself for a relation from `id` to `id`.
pub open spec fn other_end(r: ConceptRelation, id: u128) -> Option<u128> {
    if r.from == id {
        Some(r.to)
    } else if r.to == id {
        Some(r.from)
    } else {
        None
    }
}

/// For the first `n` relations, in order, each stored concept that one of
/// them leads to from `id`, with that relation.
pub open spec fn related_upto(
    concepts: Map<u128, ConceptNode>,
    rels: Seq<ConceptRelation>,
    id: u128,
    n: int,
) -> Seq<(ConceptNode, ConceptRelation)>
    decreases n,
{
    if n <= 0 {
        Seq::empty()
    } else {
        let prev = related_upto(concepts, rels, id, n - 1);
        match other_end(rels[n - 1], id) {
            Some(o) => if concepts.contains_key(o) {
                prev.push((concepts[o], rels[n - 1]))
            } else {
                prev
            },
            None => prev,
        }
    }
}

impl SemanticMemory {
    /// The concepts by id.
    pub closed spec fn concept_map(self) -> Map<u128, ConceptNode> {
        self.concepts@
    }

    /// The relations, in the order they were added.
    pub closed spec fn links(self) -> Seq<ConceptRelation> {
        self.relations@
    }

    /// The id recorded under a lowercase name.
    pub closed spec fn name_of(self, key: Seq<char>) -> Option<u128> {
        lookup(self.name_index@, key)
    }

    /// The decay factor, as bits.
    pub closed spec fn decay_bits(self) -> u64 {
        self.decay_rate
    }

    /// Each concept is stored under its own id, and each relation joins two
    /// stored concepts.
    pub closed spec fn wf(self) -> bool {
        &&& forall|id: u128| #[trigger] self.concepts@.contains_key(id) ==> self.concepts@[id].id == id
        &&& forall|i: int|
            0 <= i < self.relations@.len() ==> self.concepts@.contains_key(
                (#[trigger] self.relations@[i]).from,
            ) && self.concepts@.contains_key(self.relations@[i].to)
    }

    /// In a well-formed memory each concept sits under its own id and every
    /// relation joins stored concepts.
    pub proof fn lemma_wf(self)
        requires
            self.wf(),
        ensures
            forall|id: u128| #[trigger] self.concept_map().contains_key(id) ==> self.concept_map()[id].id == id,
            forall|i: int|
                0 <= i < self.links().len() ==> self.concept_map().contains_key(
                    (#[trigger] self.links()[i]).from,
                ) && self.concept_map().contains_key(self.links()[i].to),
    {
    }

    /// An empty memory, with activations decaying by 5% per query.
    pub fn new() -> (m: SemanticMemory)
        ensures
            m.wf(),
            m.concept_map() == Map::<u128, ConceptNode>::empty(),
            m.links() == Seq::<ConceptRelation>::empty(),
            forall|k: Seq<char>| #[trigger] m.name_of(k) is None,
            m.decay_bits() == DEFAULT_DECAY_RATE,
    {
        SemanticMemory {
            concepts: HashMap::new(),
            relations: Vec::new(),
            name_index: Vec::new(),
            decay_rate: DEFAULT_DECAY_RATE,
        }
    }

    /// The decay factor applied to every activation per query, as bits.
    pub fn decay_rate(&self) -> (r: u64)
        ensures
            r == self.decay_bits(),
    {
        self.decay_rate
    }

    /// Add a concept, at full activation, and index it under its lowercase
    /// name. A concept with the same id is replaced.
    pub fn add_concept(&mut self, concept: ConceptNode)
        requires
            old(self).wf(),
        ensures
            final(self).wf(),
            final(self).concept_map() == old(self).concept_map().insert(
                concept.id,
                (ConceptNode { activation: FULL_ACTIVATION, ..concept }),
            ),
            final(self).links() == old(self).links(),
            forall|k: Seq<char>| #[trigger] final(self).name_of(k) == (if k == lowercase(concept.name@) {
                Some(concept.id)
            } else {
                old(self).name_of(k)
            }),
            final(self).decay_bits() == old(self).decay_bits(),
    {
        let mut concept = concept;
        let id = concept.id;
        let key = to_lowercase(&concept.name);
        concept.activation = FULL_ACTIVATION;
        self.concepts.insert(id, concept);
        upsert(&mut self.name_index, key, id);
        proof {
            assert forall|i: int| 0 <= i < self.relations@.len() implies self.concepts@.contains_key(
                (#[trigger] self.relations@[i]).from,
            ) && self.concepts@.contains_key(self.relations@[i].to) by {
                assert(old(self).relations@[i] == self.relations@[i]);
            }
        }
    }

    /// Record a memory id on a stored concept, unless it is already there.
    pub fn add_memory_to_concept(&mut self, concept_id: u128, memory_id: u128)
        requires
            old(self).wf(),
        ensures
            final(self).wf(),
            !old(self).concept_map().contains_key(concept_id) ==> final(self).concept_map() == old(
                self,
            ).concept_map(),
            old(self).concept_map().contains_key(concept_id) ==> {
                let o = old(self).concept_map()[concept_id];
                let n = final(self).concept_map()[concept_id];
                &&& final(self).concept_map() == old(self).concept_map().insert(concept_id, n)
                &&& n.id == o.id && n.name == o.name && n.description == o.description
                &&& n.concept_type == o.concept_type && n.activation == o.activation
                &&& n.memory_ids@ == (if o.memory_ids@.contains(memory_id) {
                    o.memory_ids@
                } else {
                    o.memory_ids@.push(memory_id)
                })
            },
            final(self).links() == old(self).links(),
            forall|k: Seq<char>| #[trigger] final(self).name_of(k) == old(self).name_of(k),
            final(self).decay_bits() == old(self).decay_bits(),
    {
        match self.concepts.remove(&concept_id) {
            Some(mut concept) => {
                if !has_id(&concept.memory_ids, memory_id) {
                    concept.memory_ids.push(memory_id);
                }
                self.concepts.insert(concept_id, concept);
                proof {
                    assert(self.concepts@ =~= old(self).concepts@.insert(concept_id, concept));
                    assert forall|i: int|
                        0 <= i < self.relations@.len() implies self.concepts@.contains_key(
                        (#[trigger] self.relations@[i]).from,
                    ) && self.concepts@.contains_key(self.relations@[i].to) by {
                        assert(old(self).relations@[i] == self.relations@[i]);
                    }
                }
            },
            None => {},
        }
    }

    /// The concept stored under `id`.
    pub fn get_concept(&self, id: u128) -> (r: Option<&ConceptNode>)
        ensures
            match r {
                Some(c) => self.concept_map().contains_key(id) && *c == self.concept_map()[id],
                None => !self.concept_map().contains_key(id),
            },
    {
        self.concepts.get(&id)
    }

    /// The concept indexed under the lowercase form of `name`.
    pub fn get_concept_by_name(&self, name: &str) -> (r: Option<&ConceptNode>)
        ensures
            match self.name_of(lowercase(name@)) {
                Some(id) => match r {
                    Some(c) => self.concept_map().contains_key(id) && *c == self.concept_map()[id],
                    None => !self.concept_map().contains_key(id),
                },
                None => r is None,
            },
    {
        let key = to_lowercase(&name.to_owned());
        match find_key(&self.name_index, &key) {
            Some(i) => {
                let id = self.name_index[i].1;
                self.concepts.get(&id)
            },
            None => None,
        }
    }

    /// Add a relation, when both its ends are stored concepts.
    pub fn add_relation(&mut self, relation: ConceptRelation)
        requires
            old(self).wf(),
        ensures
            final(self).wf(),
            final(self).links() == (if old(self).concept_map().contains_key(relation.from)
                && old(self).concept_map().contains_key(relation.to) {
                old(self).links().push(relation)
            } else {
                old(self).links()
            }),
            final(self).concept_map() == old(self).concept_map(),
            forall|k: Seq<char>| #[trigger] final(self).name_of(k) == old(self).name_of(k),
            final(self).decay_bits() == old(self).decay_bits(),
    {
        if self.concepts.contains_key(&relation.from) && self.concepts.contains_key(&relation.to) {
            self.relations.push(relation);
            proof {
                assert forall|i: int|
                    0 <= i < self.relations@.len() implies self.concepts@.contains_key(
                    (#[trigger] self.relations@[i]).from,
                ) && self.concepts@.contains_key(self.relations@[i].to) by {
                    if i < old(self).relations@.len() {
                        assert(old(self).relations@[i] == self.relations@[i]);
                    }
                }
            }
        }
    }

    /// The relations that start or end at `concept_id`, in the order they were
    /// added.
    pub fn get_relations(&self, concept_id: u128) -> (r: Vec<ConceptRelation>)
        ensures
            r@ == touching_upto(self.links(), concept_id, self.links().len() as int),
    {
        let mut out: Vec<ConceptRelation> = Vec::new();
        let mut i: usize = 0;
        while i < self.relations.len()
            invariant
                i <= self.relations@.len(),
                out@ == touching_upto(self.relations@, concept_id, i as int),
            decreases self.relations.len() - i,
        {
            let rel = self.relations[i];
            if rel.from == concept_id || rel.to == concept_id {
                out.push(rel);
            }
            i = i + 1;
        }
        out
    }

    /// The stored concepts that the relations touching `concept_id` lead to,
    /// each with its relation, in the order the relations were added.
    pub fn get_related_concepts(&self, concept_id: u128) -> (r: Vec<(&ConceptNode, &ConceptRelation)>)
        ensures
            r@.map_values(|p: (&ConceptNode, &ConceptRelation)| (*p.0, *p.1)) == related_upto(
                self.concept_map(),
                self.links(),
                concept_id,
                self.links().len() as int,
            ),
    {
        let mut out: Vec<(&ConceptNode, &ConceptRelation)> = Vec::new();
        let mut i: usize = 0;
        while i < self.relations.len()
            invariant
                i <= self.relations@.len(),
                out@.map_values(|p: (&ConceptNode, &ConceptRelation)| (*p.0, *p.1)) == related_upto(
                    self.concepts@,
                    self.relations@,
                    concept_id,
                    i as int,
                ),
            decreases self.relations.len() - i,
        {
            let rel = &self.relations[i];
            let other = if rel.from == concept_id {
                Some(rel.to)
            } else if rel.to == concept_id {
                Some(rel.from)
            } else {
                None
            };
            let ghost prev = out@;
            match other {
                Some(o) => match self.concepts.get(&o) {
                    Some(c) => {
                        out.push((c, rel));
                        proof {
                            assert(out@ == prev.push((c, rel)));
                            assert(out@.map_values(|p: (&ConceptNode, &ConceptRelation)| (*p.0, *p.1))
                                =~= prev.map_values(|p: (&ConceptNode, &ConceptRelation)| (*p.0, *p.1)).push(
                                (*c, *rel),
                            ));
                        }
                    },
                    None => {},
                },
                None => {},
            }
            i = i + 1;
        }
        out
    }

    /// Set the activation of a stored concept, as bits; other concepts are
    /// left as they are.
    pub fn set_activation(&mut self, concept_id: u128, activation: u64)
        requires
            old(self).wf(),
        ensures
            final(self).wf(),
            final(self).concept_map() == (if old(self).concept_map().contains_key(concept_id) {
                old(self).concept_map().insert(
                    concept_id,
                    (ConceptNode { activation, ..old(self).concept_map()[concept_id] }),
                )
            } else {
                old(self).concept_map()
            }),
            final(self).links() == old(self).links(),
            forall|k: Seq<char>| #[trigger] final(self).name_of(k) == old(self).name_of(k),
            final(self).decay_bits() == old(self).decay_bits(),
    {
        match self.concepts.remove(&concept_id) {
            Some(mut concept) => {
                concept.activation = activation;
                self.concepts.insert(concept_id, concept);
                proof {
                    assert(self.concepts@ =~= old(self).concepts@.insert(concept_id, concept));
                    assert forall|i: int|
                        0 <= i < self.relations@.len() implies self.concepts@.contains_key(
                        (#[trigger] self.relations@[i]).from,
                    ) && self.concepts@.contains_key(self.relations@[i].to) by {
                        assert(old(self).relations@[i] == self.relations@[i]);
                    }
                }
            },
            None => {},
        }
    }

    /// The ids of the stored concepts, each once, in no particular order.
    pub fn concept_ids(&self) -> (r: Vec<u128>)
        ensures
            r@.to_set() == self.concept_map().dom(),
            r@.no_duplicates(),
    {
        let mut out: Vec<u128> = Vec::new();
        let ghost keys = spec_keys_iter(&self.concepts).remaining().unref();
        proof {
            broadcast use vstd::std_specs::hash::axiom_spec_keys_iter;
            assert(keys.to_set() == self.concepts@.dom());
        }
        for k in it: self.concepts.keys()
            invariant
                it.seq().unref() == keys,
                out@ == keys.take(it.index() as int),
            ensures
                out@ == keys,
        {
            proof {
                assert(keys.take(it.index() as int + 1) == keys.take(it.index() as int).push(*k));
            }
            out.push(*k);
        }
        out
    }

    /// A shortest chain of relations from `from` to `to`, found breadth-first
    /// and followed in either direction, of at most `max_depth` relations:
    /// `Some` exactly when `to` is that close to `from`, with a chain that
    /// starts at `from`, ends at `to`, joins each concept to the next by a
    /// relation and is no longer than any other.
    pub fn find_path(&self, from: u128, to: u128, max_depth: usize) -> (r: Option<Vec<u128>>)
        ensures
            r is Some <==> within(self.links(), from, to, max_depth as int),
            r matches Some(p) ==> {
                &&& chain_from(self.links(), from, p@)
                &&& p@.last() == to
                &&& p@.len() <= max_depth + 1
                &&& at_distance(self.links(), from, to, p@.len() - 1)
            },
    {
        let ghost rels = self.relations@;
        let mut visited: Vec<u128> = Vec::new();
        visited.push(from);
        let mut start: Vec<u128> = Vec::new();
        start.push(from);
        let mut frontier: Vec<Vec<u128>> = Vec::new();
        frontier.push(start);
        let mut level: usize = 0;
        proof {
            assert(frontier@[0]@ == seq![from]);
            assert(layer_chain(rels, from, frontier@[0]@, 0));
            assert forall|n: u128| visited@.contains(n) <==> within(rels, from, n, 0) by {
                if n == from {
                    assert(visited@[0] == from);
                }
            }
            assert forall|n: u128| #[trigger] at_distance(rels, from, n, 0) implies exists|q: int|
                0 <= q < frontier@.len() && frontier@[q]@.last() == n by {
                assert(frontier@[0]@.last() == n);
            }
        }
        loop
            invariant
                rels == self.relations@,
                level <= max_depth,
                forall|n: u128| #[trigger] visited@.contains(n) <==> within(rels, from, n, level as int),
                forall|q: int| 0 <= q < frontier@.len() ==> #[trigger] layer_chain(rels, from, frontier@[q]@, level as int),
                forall|n: u128| #[trigger] at_distance(rels, from, n, level as int) ==> exists|q: int|
                    0 <= q < frontier@.len() && frontier@[q]@.last() == n,
                level > 0 ==> !within(rels, from, to, level - 1),
            decreases max_depth - level,
        {
            let mut q: usize = 0;
            while q < frontier.len()
                invariant
                    rels == self.relations@,
                    q <= frontier@.len(),
                    level <= max_depth,
                    forall|t: int| 0 <= t < frontier@.len() ==> #[trigger] layer_chain(rels, from, frontier@[t]@, level as int),
                    forall|t: int| 0 <= t < q ==> (#[trigger] frontier@[t]@).last() != to,
                decreases frontier.len() - q,
            {
                let p = &frontier[q];
                proof {
                    assert(layer_chain(rels, from, frontier@[q as int]@, level as int));
                }
                if p[p.len() - 1] == to {
                    let found = copy_ids(p);
                    proof {
                        assert(layer_chain(rels, from, frontier@[q as int]@, level as int));
                        lemma_within_mono(rels, from, to, level as int, max_depth as int);
                    }
                    return Some(found);
                }
                q = q + 1;
            }
            proof {
                if at_distance(rels, from, to, level as int) {
                    let t = choose|t: int| 0 <= t < frontier@.len() && frontier@[t]@.last() == to;
                    assert(frontier@[t]@.last() != to);
                }
            }
            if level == max_depth || frontier.len() == 0 {
                proof {
                    if frontier.len() == 0 {
                        assert(level > 0) by {
                            if level == 0 {
                                assert(at_distance(rels, from, from, 0));
                            }
                        }
                        assert forall|n: u128| #[trigger] within(rels, from, n, level as int) implies within(
                            rels,
                            from,
                            n,
                            level - 1,
                        ) by {
                            if !within(rels, from, n, level - 1) {
                                assert(at_distance(rels, from, n, level as int));
                            }
                        }
                        lemma_within_stable(rels, from, level - 1, level as int, max_depth as int);
                    }
                }
                return None;
            }
            let next = self.next_layer(&frontier, &mut visited, Ghost(from), Ghost(level as int));
            frontier = next;
            level = level + 1;
        }
    }

    /// The chains one relation longer than those of `frontier`, to the
    /// concepts first reached at the next distance, each once; `visited`
    /// grows from the concepts within `level` to those within `level + 1`.
    fn next_layer(
        &self,
        frontier: &Vec<Vec<u128>>,
        visited: &mut Vec<u128>,
        Ghost(from): Ghost<u128>,
        Ghost(level): Ghost<int>,
    ) -> (next: Vec<Vec<u128>>)
        requires
            level >= 0,
            forall|n: u128| #[trigger] old(visited)@.contains(n) <==> within(self.relations@, from, n, level),
            forall|q: int| 0 <= q < frontier@.len() ==> #[trigger] layer_chain(self.relations@, from, frontier@[q]@, level),
            forall|n: u128| #[trigger] at_distance(self.relations@, from, n, level) ==> exists|q: int|
                0 <= q < frontier@.len() && frontier@[q]@.last() == n,
        ensures
            forall|n: u128| #[trigger] final(visited)@.contains(n) <==> within(self.relations@, from, n, level + 1),
            forall|q: int| 0 <= q < next@.len() ==> #[trigger] layer_chain(self.relations@, from, next@[q]@, level + 1),
            forall|n: u128| #[trigger] at_distance(self.relations@, from, n, level + 1) ==> exists|q: int|
                0 <= q < next@.len() && next@[q]@.last() == n,
    {
        let ghost rels = self.relations@;
        let ghost before = visited@;
        let mut next: Vec<Vec<u128>> = Vec::new();
        let mut q: usize = 0;
        while q < frontier.len()
            invariant
                rels == self.relations@,
                level >= 0,
                q <= frontier@.len(),
                forall|n: u128| #[trigger] before.contains(n) <==> within(rels, from, n, level),
                forall|t: int| 0 <= t < frontier@.len() ==> #[trigger] layer_chain(rels, from, frontier@[t]@, level),
                forall|n: u128| before.contains(n) ==> #[trigger] visited@.contains(n),
                forall|n: u128| #[trigger] visited@.contains(n) ==> before.contains(n) || exists|t: int|
                    0 <= t < next@.len() && next@[t]@.last() == n,
                forall|t: int| 0 <= t < next@.len() ==> #[trigger] layer_chain(rels, from, next@[t]@, level + 1),
                forall|t: int, i: int, n: u128|
                    0 <= t < q && #[trigger] linked(rels, i, frontier@[t]@.last(), n) ==> visited@.contains(n),
            decreases frontier.len() - q,
        {
            let p = &frontier[q];
            proof {
                assert(layer_chain(rels, from, frontier@[q as int]@, level));
            }
            let m = p[p.len() - 1];
            let mut i: usize = 0;
            while i < self.relations.len()
                invariant
                    rels == self.relations@,
                    level >= 0,
                    q < frontier@.len(),
                    p@ == frontier@[q as int]@,
                    m == p@.last(),
                    layer_chain(rels, from, p@, level),
                    i <= rels.len(),
                    forall|n: u128| #[trigger] before.contains(n) <==> within(rels, from, n, level),
                    forall|n: u128| before.contains(n) ==> #[trigger] visited@.contains(n),
                    forall|n: u128| #[trigger] visited@.contains(n) ==> before.contains(n) || exists|t: int|
                        0 <= t < next@.len() && next@[t]@.last() == n,
                    forall|t: int| 0 <= t < next@.len() ==> #[trigger] layer_chain(rels, from, next@[t]@, level + 1),
                    forall|t: int, j: int, n: u128|
                        0 <= t < q && #[trigger] linked(rels, j, frontier@[t]@.last(), n) ==> visited@.contains(n),
                    forall|j: int, n: u128| 0 <= j < i && #[trigger] linked(rels, j, m, n) ==> visited@.contains(n),
                decreases rels.len() - i,
            {
                let rel = self.relations[i];
                let neighbor = if rel.from == m {
                    Some(rel.to)
                } else if rel.to == m {
                    Some(rel.from)
                } else {
                    None
                };
                match neighbor {
                    Some(nb) => {
                        proof {
                            assert(linked(rels, i as int, m, nb));
                            assert forall|n: u128| #[trigger] linked(rels, i as int, m, n) implies n == nb by {}
                        }
                        if !has_id(visited, nb) {
                            let ghost vis0 = visited@;
                            let ghost next0 = next@;
                            visited.push(nb);
                            let mut path = copy_ids(p);
                            path.push(nb);
                            proof {
                                let pp = path@;
                                assert(pp == p@.push(nb));
                                assert(!before.contains(nb));
                                assert(!within(rels, from, nb, level));
                                assert(within(rels, from, m, level));
                                assert(within(rels, from, nb, level + 1));
                                assert forall|j: int| 0 <= j < pp.len() - 1 implies #[trigger] step_at(rels, pp, j) by {
                                    if j < p@.len() - 1 {
                                        assert(step_at(rels, p@, j));
                                        assert(pp[j] == p@[j] && pp[j + 1] == p@[j + 1]);
                                    } else {
                                        assert(pp[j] == m && pp[j + 1] == nb);
                                        assert(linked(rels, i as int, pp[j], pp[j + 1]));
                                    }
                                }
                                assert(layer_chain(rels, from, pp, level + 1));
                            }
                            next.push(path);
                            proof {
                                lemma_push_keeps(vis0, nb);
                                assert(visited@ == vis0.push(nb));
                                assert(next@[next@.len() - 1]@.last() == nb);
                                assert forall|n: u128| #[trigger] visited@.contains(n) implies before.contains(n)
                                    || exists|t: int| 0 <= t < next@.len() && next@[t]@.last() == n by {
                                    if n != nb {
                                        assert(vis0.contains(n));
                                        if !before.contains(n) {
                                            let t = choose|t: int| 0 <= t < next0.len() && next0[t]@.last() == n;
                                            assert(next@[t] == next0[t]);
                                        }
                                    }
                                }
                                assert forall|t: int| 0 <= t < next@.len() implies #[trigger] layer_chain(
                                    rels,
                                    from,
                                    next@[t]@,
                                    level + 1,
                                ) by {
                                    if t < next0.len() {
                                        assert(next@[t] == next0[t]);
                                    }
                                }
                                assert forall|n: u128| before.contains(n) implies #[trigger] visited@.contains(n) by {
                                    assert(vis0.contains(n));
                                }
                                assert forall|t: int, j: int, n: u128|
                                    0 <= t < q && #[trigger] linked(rels, j, frontier@[t]@.last(), n) implies visited@.contains(n) by {
                                    assert(vis0.contains(n));
                                }
                                assert forall|j: int, n: u128| 0 <= j < i + 1 && #[trigger] linked(rels, j, m, n) implies visited@.contains(n) by {
                                    if j < i {
                                        assert(vis0.contains(n));
                                    }
                                }
                            }
                        }
                    },
                    None => {
                        proof {
                            assert forall|n: u128| !#[trigger] linked(rels, i as int, m, n) by {}
                        }
                    },
                }
                i = i + 1;
            }
            q = q + 1;
        }
        proof {
            assert forall|n: u128| #[trigger] visited@.contains(n) <==> within(rels, from, n, level + 1) by {
                if visited@.contains(n) {
                    if before.contains(n) {
                        lemma_within_mono(rels, from, n, level, level + 1);
                    } else {
                        let t = choose|t: int| 0 <= t < next@.len() && next@[t]@.last() == n;
                        assert(layer_chain(rels, from, next@[t]@, level + 1));
                    }
                }
                if within(rels, from, n, level + 1) && !within(rels, from, n, level) {
                    let (m, i) = choose|m: u128, i: int| within(rels, from, m, level) && #[trigger] linked(rels, i, m, n);
                    if level > 0 && within(rels, from, m, level - 1) {
                        assert(linked(rels, i, m, n));
                        assert(within(rels, from, n, level));
                    }
                    assert(at_distance(rels, from, m, level));
                    let t = choose|t: int| 0 <= t < frontier@.len() && frontier@[t]@.last() == m;
                    assert(linked(rels, i, frontier@[t]@.last(), n));
                }
                if within(rels, from, n, level + 1) && within(rels, from, n, level) {
                    assert(before.contains(n));
                }
            }
            assert forall|n: u128| #[trigger] at_distance(rels, from, n, level + 1) implies exists|t: int|
                0 <= t < next@.len() && next@[t]@.last() == n by {
                assert(visited@.contains(n));
                assert(!before.contains(n));
            }
        }
        next
    }

    /// Number of stored concepts.
    pub fn len(&self) -> (n: usize)
        ensures
            n == self.concept_map().len(),
    {
        self.concepts.len()
    }

    /// Whether no concept is stored.
    pub fn is_empty(&self) -> (b: bool)
        ensures
            b == (self.concept_map().len() == 0),
    {
        self.concepts.len() == 0
    }

    /// Remove every concept, relation and name.
    pub fn clear(&mut self)
        ensures
            final(self).wf(),
            final(self).concept_map() == Map::<u128, ConceptNode>::empty(),
            final(self).links() == Seq::<ConceptRelation>::empty(),
            forall|k: Seq<char>| #[trigger] final(self).name_of(k) is None,
            final(self).decay_bits() == old(self).decay_bits(),
    {
        self.concepts.clear();
        self.relations.clear();
        self.name_index.clear();
    }
}

/// A chain between two concepts can be followed either way: `find_path`
/// from `a` to `b` finds one exactly when `find_path` from `b` to `a` does,
/// and the shortest chains both ways have the same length.
pub proof fn law_path_symmetric(m: SemanticMemory, a: u128, b: u128, max_depth: usize)
    ensures
        within(m.links(), a, b, max_depth as int) == within(m.links(), b, a, max_depth as int),
        forall|k: int| 0 <= k ==> (#[trigger] at_distance(m.links(), a, b, k)) == at_distance(m.links(), b, a, k),
{
    lemma_within_symmetric(m.links(), a, b, max_depth as int);
    assert forall|k: int| 0 <= k implies (#[trigger] at_distance(m.links(), a, b, k)) == at_distance(
        m.links(),
        b,
        a,
        k,
    ) by {
        lemma_within_symmetric(m.links(), a, b, k);
        if k > 0 {
            lemma_within_symmetric(m.links(), a, b, k - 1);
        }
    }
}

} // verus!
