//! The goal manifold: the root intent, the goal graph, the invariants and the
//! governance contract of a run, sealed by a BLAKE3 hash over their content
//! and recorded in an append-only version history.

use vstd::prelude::*;
use vstd::utf8::encode_utf8;
use crate::dag::GoalDag;
use crate::framing::{
    ascending_listing, be_bytes, lemma_sorted_strings_listing, le_bytes, push_be, push_le,
    push_str, push_strs, string_set, utf8_concat,
};
use crate::dag::DagError;
use crate::error::{GoalError, SentinelError};
use crate::goal::{complexity_in_range, in_unit_interval, Goal};
use crate::governance::GovernanceChangeProposal;
use crate::text::{concat_text, uuid_string, uuid_text};
use crate::governance::{GovernancePolicy, Intent};
use crate::predicate::Predicate;
use crate::string_map::StringMap;
use vstd::relations::{sorted_by, total_ordering};
use crate::strings::{clone_u16s, has_string, sort_u128s, sort_u16s, sorted_strings, views};

verus! {

/// The BLAKE3 hash of a byte string.
pub uninterp spec fn blake3_digest(data: Seq<u8>) -> Seq<u8>;

/// BLAKE3 hash of `data` (`blake3::hash`); the result is a function of the
/// bytes alone.
#[verifier::external_body]
pub(crate) fn blake3_hash(data: &Vec<u8>) -> (r: [u8; 32])
    ensures
        r@ == blake3_digest(data@),
{
    *blake3::hash(data.as_slice()).as_bytes()
}

/// A fresh random UUID (`uuid::Uuid::new_v4`), as its 128-bit value.
/// Nothing is promised of the value.
#[verifier::external_body]
pub(crate) fn new_uuid() -> u128 {
    uuid::Uuid::new_v4().as_u128()
}

/// The current time (`chrono::Utc::now`) in milliseconds since the Unix
/// epoch. Nothing is promised of the value.
#[verifier::external_body]
pub(crate) fn now_millis() -> i64 {
    chrono::Utc::now().timestamp_millis()
}

/// The current time (`chrono::Utc::now`) in whole seconds since the Unix
/// epoch. Nothing is promised of the value.
#[verifier::external_body]
pub(crate) fn now_seconds() -> i64 {
    chrono::Utc::now().timestamp()
}

/// A 32-byte BLAKE3 hash.
pub struct Blake3Hash {
    pub bytes: [u8; 32],
}

impl Blake3Hash {
    /// The all-zero hash.
    pub fn empty() -> (h: Blake3Hash)
        ensures
            forall|i: int| 0 <= i < 32 ==> h.bytes@[i] == 0,
    {
        Blake3Hash { bytes: [0u8; 32] }
    }

    /// Whether the two hashes hold the same bytes.
    pub fn equals(&self, other: &Blake3Hash) -> (r: bool)
        ensures
            r == (self.bytes@ == other.bytes@),
    {
        let mut i: usize = 0;
        while i < 32
            invariant
                i <= 32,
                self.bytes@.len() == 32,
                other.bytes@.len() == 32,
                forall|j: int| 0 <= j < i ==> self.bytes@[j] == other.bytes@[j],
            decreases 32 - i,
        {
            if self.bytes[i] != other.bytes[i] {
                return false;
            }
            i = i + 1;
        }
        assert(self.bytes@ =~= other.bytes@);
        true
    }

    /// A copy of the hash.
    pub fn copy(&self) -> (h: Blake3Hash)
        ensures
            h.bytes@ == self.bytes@,
    {
        Blake3Hash { bytes: self.bytes }
    }
}

/// Reliability thresholds of a run; each field holds the bits of a fraction.
pub struct ReliabilityThresholds {
    pub min_task_success_rate: u64,
    pub min_no_regression_rate: u64,
    pub max_rollback_rate: u64,
    pub max_invariant_violation_rate: u64,
}

impl ReliabilityThresholds {
    /// The default thresholds: at least 0.95 success and 0.95 without
    /// regression, at most 0.05 rollbacks and 0.02 invariant violations.
    pub fn standard() -> (t: ReliabilityThresholds)
        ensures
            t.min_task_success_rate == 0x3fee_6666_6666_6666u64,
            t.min_no_regression_rate == 0x3fee_6666_6666_6666u64,
            t.max_rollback_rate == 0x3fa9_9999_9999_999au64,
            t.max_invariant_violation_rate == 0x3f94_7ae1_47ae_147bu64,
    {
        ReliabilityThresholds {
            min_task_success_rate: 0x3fee_6666_6666_6666u64,
            min_no_regression_rate: 0x3fee_6666_6666_6666u64,
            max_rollback_rate: 0x3fa9_9999_9999_999au64,
            max_invariant_violation_rate: 0x3f94_7ae1_47ae_147bu64,
        }
    }
}

/// Runtime reliability policy used for hard enforcement during execution.
pub struct ReliabilityPolicy {
    pub thresholds: ReliabilityThresholds,
}

/// Severity of an invariant violation.
#[derive(Debug, Clone, Copy, PartialEq, Eq, Structural)]
pub enum InvariantSeverity {
    /// Log and continue
    Warning,
    /// Attempt correction
    Error,
    /// Stop execution
    Critical,
}

/// A hard constraint that must never be violated.
pub struct Invariant {
    pub id: u128,
    pub description: String,
    pub predicate: Predicate,
    pub severity: InvariantSeverity,
}

impl Invariant {
    /// A new invariant with a fresh random id.
    pub fn new(description: String, predicate: Predicate, severity: InvariantSeverity) -> (r: Invariant)
        ensures
            r.description == description,
            r.predicate == predicate,
            r.severity == severity,
    {
        Invariant { id: new_uuid(), description, predicate, severity }
    }

    /// A critical invariant: its violation stops execution.
    pub fn critical(description: String, predicate: Predicate) -> (r: Invariant)
        ensures
            r.description == description,
            r.predicate == predicate,
            r.severity == InvariantSeverity::Critical,
    {
        Invariant::new(description, predicate, InvariantSeverity::Critical)
    }
}

/// One entry of the version history.
pub struct ManifoldVersion {
    /// Version number, counting from 1
    pub version: u64,
    /// Milliseconds since the Unix epoch
    pub timestamp: i64,
    /// The integrity hash at this version
    pub hash: Blake3Hash,
    /// What changed
    pub change_description: String,
}

/// The goal manifold. `sensitivity` holds the bits of a fraction; times are
/// milliseconds since the Unix epoch.
pub struct GoalManifold {
    pub root_intent: Intent,
    pub sensitivity: u64,
    pub reliability: ReliabilityPolicy,
    pub governance: GovernancePolicy,
    pub goal_dag: GoalDag,
    pub invariants: Vec<Invariant>,
    pub created_at: i64,
    pub updated_at: i64,
    pub integrity_hash: Blake3Hash,
    pub version_history: Vec<ManifoldVersion>,
}

/// Ascending order of ports.
pub open spec fn port_leq() -> spec_fn(u16, u16) -> bool {
    |a: u16, b: u16| a <= b
}

/// Ascending order of ids.
pub open spec fn id_leq() -> spec_fn(u128, u128) -> bool {
    |a: u128, b: u128| a <= b
}

/// Each endpoint name, then its address, for the names `keys` of `m`.
pub open spec fn endpoint_bytes(keys: Seq<Seq<char>>, m: Map<Seq<char>, Seq<char>>) -> Seq<u8>
    decreases keys.len(),
{
    if keys.len() == 0 {
        Seq::empty()
    } else {
        endpoint_bytes(keys.drop_last(), m) + encode_utf8(keys.last()) + encode_utf8(m[keys.last()])
    }
}

/// Each port as two little-endian bytes.
pub open spec fn port_bytes(ports: Seq<u16>) -> Seq<u8>
    decreases ports.len(),
{
    if ports.len() == 0 {
        Seq::empty()
    } else {
        port_bytes(ports.drop_last()) + le_bytes(ports.last() as nat, 2)
    }
}

/// What a goal contributes to the hash: its id (16 bytes, big-endian), its
/// description, its value (8 bytes, little-endian) and its criteria text.
pub open spec fn goal_bytes(g: Goal) -> Seq<u8> {
    be_bytes(g.id as nat, 16) + encode_utf8(g.description@) + le_bytes(g.value_to_root as nat, 8)
        + encode_utf8(g.criteria_json@)
}

/// The goals found under the ids `ids`, one after another (an id without a
/// goal contributes nothing).
pub open spec fn goals_bytes(dag: GoalDag, ids: Seq<u128>) -> Seq<u8>
    decreases ids.len(),
{
    if ids.len() == 0 {
        Seq::empty()
    } else {
        goals_bytes(dag, ids.drop_last()) + if dag.spec_contains(ids.last()) {
            goal_bytes(dag.spec_goal(ids.last()))
        } else {
            Seq::empty()
        }
    }
}

/// Each invariant's id (16 bytes, big-endian) and description.
pub open spec fn invariant_bytes(v: Seq<Invariant>) -> Seq<u8>
    decreases v.len(),
{
    if v.len() == 0 {
        Seq::empty()
    } else {
        invariant_bytes(v.drop_last()) + be_bytes(v.last().id as nat, 16) + encode_utf8(
            v.last().description@,
        )
    }
}

/// The bytes that the integrity hash covers, in order: the intent's
/// description and constraints; the four reliability thresholds; the
/// required and allowed dependencies and frameworks, each set in ascending
/// order; the endpoints by ascending name; the ports in ascending order; the
/// goals by ascending id; the invariants in order.
pub open spec fn manifold_bytes(m: GoalManifold) -> Seq<u8> {
    let t = m.reliability.thresholds;
    let g = m.governance;
    encode_utf8(m.root_intent.description@) + utf8_concat(views(m.root_intent.constraints@))
        + le_bytes(t.min_task_success_rate as nat, 8) + le_bytes(t.min_no_regression_rate as nat, 8)
        + le_bytes(t.max_rollback_rate as nat, 8) + le_bytes(t.max_invariant_violation_rate as nat, 8)
        + utf8_concat(ascending_listing(string_set(g.required_dependencies@))) + utf8_concat(
        ascending_listing(string_set(g.allowed_dependencies@)),
    ) + utf8_concat(ascending_listing(string_set(g.required_frameworks@))) + utf8_concat(
        ascending_listing(string_set(g.allowed_frameworks@)),
    ) + endpoint_bytes(ascending_listing(g.allowed_endpoints@.dom()), g.allowed_endpoints@)
        + port_bytes(g.allowed_ports@.sort_by(port_leq())) + goals_bytes(
        m.goal_dag,
        m.goal_dag.spec_goal_ids().sort_by(id_leq()),
    ) + invariant_bytes(m.invariants@)
}

/// The integrity hash the manifold's content calls for.
pub open spec fn content_hash(m: GoalManifold) -> Seq<u8> {
    blake3_digest(manifold_bytes(m))
}

/// Append the distinct strings of `v` in ascending order.
fn push_sorted_strs(buf: &mut Vec<u8>, v: &Vec<String>)
    ensures
        final(buf)@ == old(buf)@ + utf8_concat(ascending_listing(string_set(v@))),
{
    let s = sorted_strings(v);
    proof {
        lemma_sorted_strings_listing(s@, v@);
    }
    push_strs(buf, &s);
}

/// Append the endpoints by ascending name: each name, then its address.
fn push_endpoints(buf: &mut Vec<u8>, m: &StringMap)
    requires
        m.wf(),
    ensures
        final(buf)@ == old(buf)@ + endpoint_bytes(ascending_listing(m@.dom()), m@),
{
    let keys = m.keys();
    let s = sorted_strings(&keys);
    proof {
        lemma_sorted_strings_listing(s@, keys@);
        m.lemma_values();
        assert forall|k: Seq<char>| #[trigger] string_set(keys@).contains(k) <==> m@.dom().contains(k) by {
            if string_set(keys@).contains(k) {
                let i = choose|i: int| 0 <= i < keys@.len() && #[trigger] keys@[i]@ == k;
                assert(keys@[i] == m.entries()[i].0);
            }
            if m@.dom().contains(k) {
                let i = choose|i: int| 0 <= i < m.entries().len() && #[trigger] m.entries()[i].0@ == k;
                assert(keys@[i]@ == k);
            }
        }
        assert(string_set(keys@) =~= m@.dom());
        assert forall|j: int| 0 <= j < s@.len() implies m@.dom().contains(#[trigger] s@[j]@) by {
            assert(has_string(s@, s@[j]@));
            assert(string_set(keys@).contains(s@[j]@));
        }
    }
    let ghost listing = views(s@);
    let mut i: usize = 0;
    while i < s.len()
        invariant
            i <= s@.len(),
            m.wf(),
            listing == views(s@),
            listing == ascending_listing(m@.dom()),
            forall|j: int| 0 <= j < s@.len() ==> m@.dom().contains(#[trigger] s@[j]@),
            buf@ == old(buf)@ + endpoint_bytes(listing.take(i as int), m@),
        decreases s.len() - i,
    {
        assert(m@.dom().contains(s@[i as int]@));
        match m.get(&s[i]) {
            Some(v) => {
                let ghost before = buf@;
                push_str(buf, &s[i]);
                push_str(buf, v);
                proof {
                    let t = listing.take(i as int + 1);
                    assert(t.drop_last() =~= listing.take(i as int));
                    assert(t.last() == s@[i as int]@);
                    assert(buf@ =~= old(buf)@ + endpoint_bytes(t, m@));
                }
            },
            None => {
                assert(false);
            },
        }
        i = i + 1;
    }
    proof {
        assert(listing.take(listing.len() as int) == listing);
    }
}

/// `<=` is a total order on ports and on ids.
proof fn lemma_orders_total()
    ensures
        total_ordering(port_leq()),
        total_ordering(id_leq()),
{
}

/// Append the ports in ascending order, each as two little-endian bytes.
fn push_ports(buf: &mut Vec<u8>, ports: &Vec<u16>)
    ensures
        final(buf)@ == old(buf)@ + port_bytes(ports@.sort_by(port_leq())),
{
    let mut sorted = clone_u16s(ports);
    sort_u16s(&mut sorted);
    proof {
        lemma_orders_total();
        ports@.lemma_sort_by_ensures(port_leq());
        assert(sorted_by(sorted@, port_leq()));
        vstd::seq_lib::lemma_sorted_unique(sorted@, ports@.sort_by(port_leq()), port_leq());
    }
    let mut i: usize = 0;
    while i < sorted.len()
        invariant
            i <= sorted@.len(),
            sorted@ == ports@.sort_by(port_leq()),
            buf@ == old(buf)@ + port_bytes(sorted@.take(i as int)),
        decreases sorted.len() - i,
    {
        let ghost before = buf@;
        push_le(buf, sorted[i] as u64, 2);
        proof {
            let t = sorted@.take(i as int + 1);
            assert(t.drop_last() =~= sorted@.take(i as int));
            assert(buf@ =~= old(buf)@ + port_bytes(t));
        }
        i = i + 1;
    }
    proof {
        assert(sorted@.take(sorted@.len() as int) == sorted@);
    }
}

/// Append the goals by ascending id.
fn push_goals(buf: &mut Vec<u8>, dag: &GoalDag)
    requires
        dag.wf(),
    ensures
        final(buf)@ == old(buf)@ + goals_bytes(*dag, dag.spec_goal_ids().sort_by(id_leq())),
{
    let mut ids = dag.goal_ids();
    let ghost unsorted = ids@;
    sort_u128s(&mut ids);
    proof {
        lemma_orders_total();
        unsorted.lemma_sort_by_ensures(id_leq());
        assert(sorted_by(ids@, id_leq()));
        vstd::seq_lib::lemma_sorted_unique(ids@, unsorted.sort_by(id_leq()), id_leq());
    }
    let mut i: usize = 0;
    while i < ids.len()
        invariant
            i <= ids@.len(),
            dag.wf(),
            ids@ == dag.spec_goal_ids().sort_by(id_leq()),
            buf@ == old(buf)@ + goals_bytes(*dag, ids@.take(i as int)),
        decreases ids.len() - i,
    {
        let ghost before = buf@;
        match dag.get_goal(ids[i]) {
            Some(g) => {
                push_be(buf, g.id, 16);
                push_str(buf, &g.description);
                push_le(buf, g.value_to_root, 8);
                push_str(buf, &g.criteria_json);
            },
            None => {},
        }
        proof {
            let t = ids@.take(i as int + 1);
            assert(t.drop_last() =~= ids@.take(i as int));
            assert(t.last() == ids@[i as int]);
            assert(buf@ =~= old(buf)@ + goals_bytes(*dag, t));
        }
        i = i + 1;
    }
    proof {
        assert(ids@.take(ids@.len() as int) == ids@);
    }
}

/// Append the invariants in order: each id and description.
fn push_invariants(buf: &mut Vec<u8>, v: &Vec<Invariant>)
    ensures
        final(buf)@ == old(buf)@ + invariant_bytes(v@),
{
    let mut i: usize = 0;
    while i < v.len()
        invariant
            i <= v@.len(),
            buf@ == old(buf)@ + invariant_bytes(v@.take(i as int)),
        decreases v.len() - i,
    {
        let ghost before = buf@;
        push_be(buf, v[i].id, 16);
        push_str(buf, &v[i].description);
        proof {
            let t = v@.take(i as int + 1);
            assert(t.drop_last() =~= v@.take(i as int));
            assert(buf@ =~= old(buf)@ + invariant_bytes(t));
        }
        i = i + 1;
    }
    proof {
        assert(v@.take(v@.len() as int) == v@);
    }
}

impl GoalManifold {
    /// The parts hold their own invariants.
    pub open spec fn wf(&self) -> bool {
        &&& self.root_intent.wf()
        &&& self.governance.wf()
        &&& self.goal_dag.wf()
    }

    /// Compute the BLAKE3 hash of the manifold's content (see
    /// `manifold_bytes`).
    pub fn compute_hash(&self) -> (h: Blake3Hash)
        requires
            self.wf(),
        ensures
            h.bytes@ == content_hash(*self),
    {
        let mut buf: Vec<u8> = Vec::new();
        push_str(&mut buf, &self.root_intent.description);
        push_strs(&mut buf, &self.root_intent.constraints);
        push_le(&mut buf, self.reliability.thresholds.min_task_success_rate, 8);
        push_le(&mut buf, self.reliability.thresholds.min_no_regression_rate, 8);
        push_le(&mut buf, self.reliability.thresholds.max_rollback_rate, 8);
        push_le(&mut buf, self.reliability.thresholds.max_invariant_violation_rate, 8);
        push_sorted_strs(&mut buf, &self.governance.required_dependencies);
        push_sorted_strs(&mut buf, &self.governance.allowed_dependencies);
        push_sorted_strs(&mut buf, &self.governance.required_frameworks);
        push_sorted_strs(&mut buf, &self.governance.allowed_frameworks);
        push_endpoints(&mut buf, &self.governance.allowed_endpoints);
        push_ports(&mut buf, &self.governance.allowed_ports);
        push_goals(&mut buf, &self.goal_dag);
        push_invariants(&mut buf, &self.invariants);
        proof {
            assert(buf@ =~= manifold_bytes(*self));
        }
        Blake3Hash { bytes: blake3_hash(&buf) }
    }

    /// Whether the stored integrity hash matches the content.
    pub fn verify_integrity(&self) -> (b: bool)
        requires
            self.wf(),
        ensures
            b == (self.integrity_hash.bytes@ == content_hash(*self)),
    {
        let computed = self.compute_hash();
        computed.equals(&self.integrity_hash)
    }

    /// The stored hash matches the content, and the last version records it.
    pub open spec fn sealed(&self) -> bool {
        &&& self.integrity_hash.bytes@ == content_hash(*self)
        &&& self.version_history@.len() > 0
        &&& self.version_history@.last().hash.bytes@ == self.integrity_hash.bytes@
    }

    /// Versions are numbered 1, 2, ... in history order.
    pub open spec fn versions_sequential(&self) -> bool {
        forall|i: int|
            0 <= i < self.version_history@.len() ==> #[trigger] self.version_history@[i].version == i + 1
    }

    /// The content (everything the hash covers, and the settings) of `self`
    /// and `other` is the same.
    pub open spec fn same_content(&self, other: &GoalManifold) -> bool {
        &&& self.root_intent == other.root_intent
        &&& self.sensitivity == other.sensitivity
        &&& self.reliability == other.reliability
        &&& self.governance == other.governance
        &&& self.goal_dag == other.goal_dag
        &&& self.invariants == other.invariants
        &&& self.created_at == other.created_at
    }

    /// Seal the current content: store its hash and append a version with it.
    fn update_hash(&mut self, change_description: String)
        requires
            old(self).wf(),
            old(self).version_history@.len() + 1 < u64::MAX,
        ensures
            final(self).wf(),
            final(self).same_content(old(self)),
            final(self).sealed(),
            final(self).version_history@.len() == old(self).version_history@.len() + 1,
            final(self).version_history@.drop_last() == old(self).version_history@,
            final(self).version_history@.last().version == old(self).version_history@.len() + 1,
            final(self).version_history@.last().change_description == change_description,
            final(self).version_history@.last().timestamp == final(self).updated_at,
            old(self).versions_sequential() ==> final(self).versions_sequential(),
    {
        let hash = self.compute_hash();
        self.integrity_hash = hash.copy();
        self.updated_at = now_millis();
        let version = self.version_history.len() as u64 + 1;
        self.version_history.push(
            ManifoldVersion { version, timestamp: self.updated_at, hash, change_description },
        );
        proof {
            assert(manifold_bytes(*self) == manifold_bytes(*old(self)));
            assert(self.version_history@.drop_last() =~= old(self).version_history@);
            if old(self).versions_sequential() {
                assert forall|i: int| 0 <= i < self.version_history@.len() implies #[trigger] self.version_history@[i].version == i + 1 by {
                    if i < old(self).version_history@.len() {
                        assert(self.version_history@[i] == old(self).version_history@[i]);
                    }
                }
            }
        }
    }

    /// A new manifold for `root_intent`: sensitivity 0.5, the default
    /// reliability thresholds, the governance policy the intent implies, no
    /// goals and no invariants; it is sealed as version 1.
    pub fn new(root_intent: Intent) -> (m: GoalManifold)
        requires
            root_intent.wf(),
        ensures
            m.wf(),
            m.sealed(),
            m.versions_sequential(),
            m.root_intent == root_intent,
            m.sensitivity == 0x3fe0_0000_0000_0000u64,
            m.reliability.thresholds.min_task_success_rate == 0x3fee_6666_6666_6666u64,
            m.reliability.thresholds.min_no_regression_rate == 0x3fee_6666_6666_6666u64,
            m.reliability.thresholds.max_rollback_rate == 0x3fa9_9999_9999_999au64,
            m.reliability.thresholds.max_invariant_violation_rate == 0x3f94_7ae1_47ae_147bu64,
            m.governance.derived_from(&root_intent),
            m.goal_dag.spec_len() == 0,
            forall|id: u128| !m.goal_dag.spec_contains(id),
            m.invariants@.len() == 0,
            m.version_history@.len() == 1,
            m.version_history@[0].change_description@ == "Manifold initialized"@,
    {
        let now = now_millis();
        let governance = GovernancePolicy::from_intent(&root_intent);
        let mut manifold = GoalManifold {
            root_intent,
            sensitivity: 0x3fe0_0000_0000_0000u64,
            reliability: ReliabilityPolicy { thresholds: ReliabilityThresholds::standard() },
            governance,
            goal_dag: GoalDag::new(),
            invariants: Vec::new(),
            created_at: now,
            updated_at: now,
            integrity_hash: Blake3Hash::empty(),
            version_history: Vec::new(),
        };
        manifold.update_hash("Manifold initialized".to_owned());
        manifold
    }

    /// Add a goal after checking it, and seal the new content.
    ///
    /// A goal that fails its own check is refused with that error under the
    /// context "Goal validation failed"; a goal whose id is already present is
    /// refused by the graph. A refused goal changes nothing.
    pub fn add_goal(&mut self, goal: Goal) -> (r: Result<(), SentinelError>)
        requires
            old(self).wf(),
            old(self).goal_dag.spec_len() + 1 < u32::MAX,
            old(self).version_history@.len() + 1 < u64::MAX,
        ensures
            final(self).wf(),
            r is Ok ==> final(self).sealed(),
            old(self).versions_sequential() ==> final(self).versions_sequential(),
            !in_unit_interval(goal.value_to_root) ==> (r matches Err(SentinelError::WithContext { context, source })
                && context@ == "Goal validation failed"@
                && *source == SentinelError::Goal(GoalError::InvalidValue(goal.value_to_root))),
            in_unit_interval(goal.value_to_root) && goal.success_criteria@.len() == 0 ==> (r matches Err(SentinelError::WithContext { context, source })
                && context@ == "Goal validation failed"@
                && *source == SentinelError::Goal(GoalError::EmptySuccessCriteria)),
            in_unit_interval(goal.value_to_root) && goal.success_criteria@.len() > 0 && !complexity_in_range(
                goal.complexity_mean,
            ) ==> (r matches Err(SentinelError::WithContext { context, source })
                && context@ == "Goal validation failed"@
                && *source == SentinelError::Goal(GoalError::ComplexityOutOfRange(goal.complexity_mean))),
            in_unit_interval(goal.value_to_root) && goal.success_criteria@.len() > 0 && complexity_in_range(
                goal.complexity_mean,
            ) && old(self).goal_dag.spec_contains(goal.id) ==> r == Err::<(), SentinelError>(
                SentinelError::Dag(DagError::NodeNotFound(goal.id)),
            ),
            r is Err ==> *final(self) == *old(self),
            r is Ok <==> (in_unit_interval(goal.value_to_root) && goal.success_criteria@.len() > 0
                && complexity_in_range(goal.complexity_mean) && !old(self).goal_dag.spec_contains(goal.id)),
            r is Ok ==> {
                &&& final(self).goal_dag.spec_len() == old(self).goal_dag.spec_len() + 1
                &&& forall|id: u128| #[trigger] final(self).goal_dag.spec_contains(id)
                    <==> (old(self).goal_dag.spec_contains(id) || id == goal.id)
                &&& final(self).goal_dag.spec_goal(goal.id) == goal
                &&& forall|id: u128| #[trigger] old(self).goal_dag.spec_contains(id)
                    ==> final(self).goal_dag.spec_goal(id) == old(self).goal_dag.spec_goal(id)
                &&& final(self).root_intent == old(self).root_intent
                &&& final(self).governance == old(self).governance
                &&& final(self).invariants == old(self).invariants
                &&& final(self).version_history@.len() == old(self).version_history@.len() + 1
                &&& final(self).version_history@.last().change_description@ == "Added goal: "@ + goal.description@
            },
    {
        match goal.validate() {
            Ok(()) => {},
            Err(e) => {
                return Err(e.context("Goal validation failed".to_owned()));
            },
        }
        let description = concat_text("Added goal: ", &goal.description);
        match self.goal_dag.add_goal(goal) {
            Ok(()) => {},
            Err(e) => {
                return Err(SentinelError::Dag(e));
            },
        }
        self.update_hash(description);
        Ok(())
    }

    /// Add a dependency (`from` depends on `to`) and seal the new content.
    /// The graph's refusals (a missing goal, an anti-dependency, a cycle)
    /// come back as graph errors and change nothing.
    pub fn add_dependency(&mut self, from: u128, to: u128) -> (r: Result<(), SentinelError>)
        requires
            old(self).wf(),
            old(self).goal_dag.spec_edge_count() + 1 < u32::MAX,
            old(self).version_history@.len() + 1 < u64::MAX,
        ensures
            final(self).wf(),
            r is Ok ==> final(self).sealed(),
            old(self).versions_sequential() ==> final(self).versions_sequential(),
            !old(self).goal_dag.spec_contains(from) ==> r == Err::<(), SentinelError>(
                SentinelError::Dag(DagError::NodeNotFound(from)),
            ),
            old(self).goal_dag.spec_contains(from) && !old(self).goal_dag.spec_contains(to) ==> r
                == Err::<(), SentinelError>(SentinelError::Dag(DagError::NodeNotFound(to))),
            r is Err ==> *final(self) == *old(self),
            r is Ok <==> (old(self).goal_dag.spec_contains(from) && old(self).goal_dag.spec_contains(to)
                && !old(self).goal_dag.spec_goal(from).anti_dependencies@.contains(to)
                && !old(self).goal_dag.spec_reaches(from, to)),
            r is Ok ==> {
                &&& forall|x: u128| #[trigger] final(self).goal_dag.spec_contains(x)
                    <==> old(self).goal_dag.spec_contains(x)
                &&& forall|a: u128, b: u128| old(self).goal_dag.spec_contains(a)
                    && old(self).goal_dag.spec_contains(b) ==> (#[trigger] final(self).goal_dag.spec_depends_on(a, b)
                    <==> (old(self).goal_dag.spec_depends_on(a, b) || (a == from && b == to)))
                &&& final(self).root_intent == old(self).root_intent
                &&& final(self).governance == old(self).governance
                &&& final(self).invariants == old(self).invariants
                &&& final(self).version_history@.len() == old(self).version_history@.len() + 1
                &&& final(self).version_history@.last().change_description@ == "Added dependency: "@
                    + uuid_text(from as nat) + " -> "@ + uuid_text(to as nat)
            },
    {
        match self.goal_dag.add_dependency(from, to) {
            Ok(()) => {},
            Err(e) => {
                return Err(SentinelError::Dag(e));
            },
        }
        let d1 = concat_text("Added dependency: ", &uuid_string(from));
        let arrow = " -> ".to_owned();
        let d2 = concat_text(d1.as_str(), &arrow);
        let d3 = concat_text(d2.as_str(), &uuid_string(to));
        self.update_hash(d3);
        Ok(())
    }

    /// Add an invariant and seal the new content.
    pub fn add_invariant(&mut self, item: Invariant) -> (r: Result<(), SentinelError>)
        requires
            old(self).wf(),
            old(self).version_history@.len() + 1 < u64::MAX,
        ensures
            r is Ok,
            final(self).wf(),
            final(self).sealed(),
            old(self).versions_sequential() ==> final(self).versions_sequential(),
            final(self).invariants@ == old(self).invariants@.push(item),
            final(self).root_intent == old(self).root_intent,
            final(self).governance == old(self).governance,
            final(self).goal_dag == old(self).goal_dag,
            final(self).version_history@.len() == old(self).version_history@.len() + 1,
            final(self).version_history@.last().change_description@ == "Added invariant: "@
                + item.description@,
    {
        let description = concat_text("Added invariant: ", &item.description);
        self.invariants.push(item);
        self.update_hash(description);
        Ok(())
    }

    /// Record a governance proposal that waits for the user's approval, and
    /// seal the new content.
    pub fn record_governance_proposal(&mut self, proposal: GovernanceChangeProposal)
        requires
            old(self).wf(),
            old(self).version_history@.len() + 1 < u64::MAX,
            proposal.wf(),
        ensures
            final(self).wf(),
            final(self).sealed(),
            old(self).versions_sequential() ==> final(self).versions_sequential(),
            final(self).governance.pending_proposal matches Some(p) && p.same_as(&proposal),
            final(self).governance.history@ == old(self).governance.history@.push(proposal),
            final(self).governance.allowed_dependencies == old(self).governance.allowed_dependencies,
            final(self).governance.required_dependencies == old(self).governance.required_dependencies,
            final(self).governance.allowed_frameworks == old(self).governance.allowed_frameworks,
            final(self).governance.required_frameworks == old(self).governance.required_frameworks,
            final(self).governance.allowed_endpoints == old(self).governance.allowed_endpoints,
            final(self).governance.allowed_ports == old(self).governance.allowed_ports,
            final(self).root_intent == old(self).root_intent,
            final(self).goal_dag == old(self).goal_dag,
            final(self).invariants == old(self).invariants,
            final(self).version_history@.len() == old(self).version_history@.len() + 1,
            final(self).version_history@.last().change_description@ == "Governance proposal recorded"@,
    {
        self.governance.record_proposal(proposal);
        self.update_hash("Governance proposal recorded".to_owned());
    }

    /// Approve the pending governance proposal, apply it to the contract and
    /// seal the new content; the proposal's id is returned. Without a
    /// pending proposal nothing changes and an invariant violation is
    /// reported.
    pub fn approve_pending_governance_proposal(&mut self, user_note: Option<String>) -> (r: Result<
        u128,
        SentinelError,
    >)
        requires
            old(self).wf(),
            old(self).version_history@.len() + 1 < u64::MAX,
        ensures
            final(self).wf(),
            old(self).governance.pending_proposal is Some ==> final(self).sealed(),
            old(self).versions_sequential() ==> final(self).versions_sequential(),
            old(self).governance.pending_proposal is None ==> {
                &&& r matches Err(SentinelError::InvariantViolation(m)) && m@ == "No pending governance proposal"@
                &&& *final(self) == *old(self)
            },
            old(self).governance.pending_proposal matches Some(p) ==> {
                &&& r == Ok::<u128, SentinelError>(p.id)
                &&& final(self).governance.approval_of(&old(self).governance, p, user_note)
                &&& final(self).root_intent == old(self).root_intent
                &&& final(self).goal_dag == old(self).goal_dag
                &&& final(self).invariants == old(self).invariants
                &&& final(self).version_history@.len() == old(self).version_history@.len() + 1
                &&& final(self).version_history@.last().change_description@ == "Governance proposal approved"@
            },
    {
        let id = self.governance.approve_pending(user_note)?;
        self.update_hash("Governance proposal approved".to_owned());
        Ok(id)
    }

    /// Reject the pending governance proposal and seal the new content; the
    /// proposal's id is returned. Without a pending proposal nothing changes
    /// and an invariant violation is reported.
    pub fn reject_pending_governance_proposal(&mut self, user_note: Option<String>) -> (r: Result<
        u128,
        SentinelError,
    >)
        requires
            old(self).wf(),
            old(self).version_history@.len() + 1 < u64::MAX,
        ensures
            final(self).wf(),
            old(self).governance.pending_proposal is Some ==> final(self).sealed(),
            old(self).versions_sequential() ==> final(self).versions_sequential(),
            old(self).governance.pending_proposal is None ==> {
                &&& r matches Err(SentinelError::InvariantViolation(m)) && m@ == "No pending governance proposal"@
                &&& *final(self) == *old(self)
            },
            old(self).governance.pending_proposal matches Some(p) ==> {
                &&& r == Ok::<u128, SentinelError>(p.id)
                &&& final(self).governance.rejection_of(&old(self).governance, p, user_note)
                &&& final(self).root_intent == old(self).root_intent
                &&& final(self).goal_dag == old(self).goal_dag
                &&& final(self).invariants == old(self).invariants
                &&& final(self).version_history@.len() == old(self).version_history@.len() + 1
                &&& final(self).version_history@.last().change_description@ == "Governance proposal rejected"@
            },
    {
        let id = self.governance.reject_pending(user_note)?;
        self.update_hash("Governance proposal rejected".to_owned());
        Ok(id)
    }

    /// Seed the governance contract from a workspace observation (see
    /// `GovernancePolicy::apply_seed`) and seal the new content.
    pub fn apply_governance_seed(
        &mut self,
        dependencies: Vec<String>,
        frameworks: Vec<String>,
        endpoints: Vec<String>,
        ports: Vec<u16>,
        lock_required_to_allowed: bool,
    )
        requires
            old(self).wf(),
            old(self).version_history@.len() + 1 < u64::MAX,
        ensures
            final(self).wf(),
            final(self).sealed(),
            old(self).versions_sequential() ==> final(self).versions_sequential(),
            final(self).governance.seeded_from(
                &old(self).governance,
                dependencies@,
                frameworks@,
                endpoints@,
                ports@,
                lock_required_to_allowed,
            ),
            final(self).root_intent == old(self).root_intent,
            final(self).goal_dag == old(self).goal_dag,
            final(self).invariants == old(self).invariants,
            final(self).version_history@.len() == old(self).version_history@.len() + 1,
            final(self).version_history@.last().change_description@ == "Governance baseline seeded"@,
    {
        self.governance.apply_seed(dependencies, frameworks, endpoints, ports, lock_required_to_allowed);
        self.update_hash("Governance baseline seeded".to_owned());
    }

    /// Get a goal by id.
    pub fn get_goal(&self, id: u128) -> (r: Option<&Goal>)
        requires
            self.wf(),
        ensures
            match r {
                Some(g) => self.goal_dag.spec_contains(id) && *g == self.goal_dag.spec_goal(id),
                None => !self.goal_dag.spec_contains(id),
            },
    {
        self.goal_dag.get_goal(id)
    }

    /// The ids of the goals that can be worked on (see `GoalDag::get_ready_goals`).
    pub fn get_ready_goals(&self) -> (r: Vec<u128>)
        requires
            self.wf(),
        ensures
            r@.no_duplicates(),
            forall|id: u128| #[trigger] r@.contains(id) <==> self.goal_dag.spec_is_ready(id),
    {
        self.goal_dag.get_ready_goals()
    }

    /// The ids of all goals, in storage order.
    pub fn all_goal_ids(&self) -> (r: Vec<u128>)
        ensures
            r@ == self.goal_dag.spec_goal_ids(),
    {
        self.goal_dag.goal_ids()
    }

    /// All goals, in storage order.
    pub fn all_goals(&self) -> (r: Vec<&Goal>)
        ensures
            r@.map_values(|g: &Goal| *g) == self.goal_dag.spec_goal_list(),
            r@.map_values(|g: &Goal| g.id) == self.goal_dag.spec_goal_ids(),
    {
        self.goal_dag.goals()
    }

    /// Number of goals.
    pub fn goal_count(&self) -> (n: usize)
        requires
            self.wf(),
        ensures
            n == self.goal_dag.spec_len(),
    {
        self.goal_dag.len()
    }

    /// The current version number: the number of recorded versions.
    pub fn current_version(&self) -> (v: u64)
        requires
            self.version_history@.len() < u64::MAX,
        ensures
            v == self.version_history@.len(),
    {
        self.version_history.len() as u64
    }

    /// The version history.
    pub fn version_history(&self) -> (h: &[ManifoldVersion])
        ensures
            h@ == self.version_history@,
    {
        self.version_history.as_slice()
    }
}

/// An invariant found violated.
#[derive(Debug, Clone)]
pub struct InvariantViolation {
    pub invariant_id: u128,
    pub description: String,
    pub severity: InvariantSeverity,
}

/// What is reported of invariant `inv` whose predicate evaluated to
/// `outcome`: nothing when it held, its description when it failed, its
/// description, `": "` and the error when the evaluation itself failed.
pub open spec fn violation_of(inv: Invariant, outcome: Result<bool, String>) -> Option<
    (u128, Seq<char>, InvariantSeverity),
> {
    match outcome {
        Ok(true) => None,
        Ok(false) => Some((inv.id, inv.description@, inv.severity)),
        Err(e) => Some((inv.id, inv.description@ + ": "@ + e@, inv.severity)),
    }
}

/// The violations reported for the first `n` invariants, in order.
pub open spec fn violations_upto(
    invs: Seq<Invariant>,
    outcomes: Seq<Result<bool, String>>,
    n: nat,
) -> Seq<(u128, Seq<char>, InvariantSeverity)>
    decreases n,
{
    if n == 0 {
        Seq::empty()
    } else {
        let prev = violations_upto(invs, outcomes, (n - 1) as nat);
        match violation_of(invs[n - 1], outcomes[n - 1]) {
            Some(v) => prev.push(v),
            None => prev,
        }
    }
}

/// A violation as plain values.
pub open spec fn violation_view(v: InvariantViolation) -> (u128, Seq<char>, InvariantSeverity) {
    (v.invariant_id, v.description@, v.severity)
}

impl GoalManifold {
    /// The violations among the invariants, given for each invariant, in
    /// order, the outcome of evaluating its predicate: an invariant that
    /// evaluated to `false` is violated, and so is one whose evaluation
    /// failed, with the error appended to its description.
    pub fn collect_violations(&self, outcomes: &Vec<Result<bool, String>>) -> (r: Vec<
        InvariantViolation,
    >)
        requires
            outcomes@.len() == self.invariants@.len(),
        ensures
            r@.map_values(|v: InvariantViolation| violation_view(v)) == violations_upto(
                self.invariants@,
                outcomes@,
                outcomes@.len(),
            ),
    {
        let mut out: Vec<InvariantViolation> = Vec::new();
        let mut i: usize = 0;
        while i < outcomes.len()
            invariant
                i <= outcomes@.len(),
                outcomes@.len() == self.invariants@.len(),
                out@.map_values(|v: InvariantViolation| violation_view(v)) == violations_upto(
                    self.invariants@,
                    outcomes@,
                    i as nat,
                ),
            decreases outcomes.len() - i,
        {
            let inv = &self.invariants[i];
            let ghost prev = out@;
            match &outcomes[i] {
                Ok(true) => {},
                Ok(false) => {
                    out.push(
                        InvariantViolation {
                            invariant_id: inv.id,
                            description: inv.description.clone(),
                            severity: inv.severity,
                        },
                    );
                    proof {
                        assert(out@ == prev.push(out@.last()));
                        assert(violation_view(out@.last()) == violation_of(
                            self.invariants@[i as int],
                            outcomes@[i as int],
                        )->0);
                    }
                },
                Err(e) => {
                    let d = concat_text(inv.description.as_str(), &concat_text(": ", e));
                    out.push(
                        InvariantViolation { invariant_id: inv.id, description: d, severity: inv.severity },
                    );
                    proof {
                        assert(out@ == prev.push(out@.last()));
                        assert(d@ == inv.description@ + ": "@ + e@);
                        assert(violation_view(out@.last()) == violation_of(
                            self.invariants@[i as int],
                            outcomes@[i as int],
                        )->0);
                    }
                },
            }
            proof {
                assert(out@.map_values(|v: InvariantViolation| violation_view(v))
                    =~= violations_upto(self.invariants@, outcomes@, (i + 1) as nat));
            }
            i = i + 1;
        }
        out
    }
}

/// A sealed manifold passes its integrity check: the stored hash is the
/// hash of its content, so `verify_integrity` returns `true`.
pub proof fn law_sealed_manifold_verifies(m: GoalManifold)
    requires
        m.sealed(),
    ensures
        m.integrity_hash.bytes@ == content_hash(m),
        m.version_history@.last().hash.bytes@ == content_hash(m),
{
}

/// The integrity hash depends on the content alone: two manifolds with the
/// same content call for the same hash, whatever their history or times.
pub proof fn law_hash_depends_on_content(a: GoalManifold, b: GoalManifold)
    requires
        a.same_content(&b),
    ensures
        content_hash(a) == content_hash(b),
{
    assert(manifold_bytes(a) == manifold_bytes(b));
}

/// The goals found under the same ids are the same bytes when the two
/// graphs hold the same goals under those ids.
proof fn lemma_goals_bytes_agree(a: GoalDag, b: GoalDag, ids: Seq<u128>)
    requires
        forall|id: u128| #[trigger] a.spec_contains(id) == b.spec_contains(id),
        forall|id: u128| a.spec_contains(id) ==> #[trigger] a.spec_goal(id) == b.spec_goal(id),
    ensures
        goals_bytes(a, ids) == goals_bytes(b, ids),
    decreases ids.len(),
{
    if ids.len() > 0 {
        lemma_goals_bytes_agree(a, b, ids.drop_last());
    }
}

/// The integrity hash does not depend on the order in which things were
/// recorded: dependencies and frameworks count as sets (order and repeats
/// aside), endpoints as a map, ports and goal ids whatever their order, and
/// the goals by their ids. Two manifolds that agree in that sense, with the
/// same intent, reliability policy and invariants, call for the same hash.
pub proof fn law_hash_ignores_order(a: GoalManifold, b: GoalManifold)
    requires
        a.root_intent == b.root_intent,
        a.reliability == b.reliability,
        string_set(a.governance.required_dependencies@) == string_set(b.governance.required_dependencies@),
        string_set(a.governance.allowed_dependencies@) == string_set(b.governance.allowed_dependencies@),
        string_set(a.governance.required_frameworks@) == string_set(b.governance.required_frameworks@),
        string_set(a.governance.allowed_frameworks@) == string_set(b.governance.allowed_frameworks@),
        a.governance.allowed_endpoints@ == b.governance.allowed_endpoints@,
        a.governance.allowed_ports@.to_multiset() == b.governance.allowed_ports@.to_multiset(),
        a.goal_dag.spec_goal_ids().to_multiset() == b.goal_dag.spec_goal_ids().to_multiset(),
        forall|id: u128| #[trigger] a.goal_dag.spec_contains(id) == b.goal_dag.spec_contains(id),
        forall|id: u128| a.goal_dag.spec_contains(id) ==> #[trigger] a.goal_dag.spec_goal(id) == b.goal_dag.spec_goal(id),
        a.invariants@ == b.invariants@,
    ensures
        content_hash(a) == content_hash(b),
{
    assert(total_ordering(port_leq())) by {
        assert(vstd::relations::reflexive(port_leq()));
        assert(vstd::relations::antisymmetric(port_leq()));
        assert(vstd::relations::transitive(port_leq()));
        assert(vstd::relations::strongly_connected(port_leq()));
    }
    assert(total_ordering(id_leq())) by {
        assert(vstd::relations::reflexive(id_leq()));
        assert(vstd::relations::antisymmetric(id_leq()));
        assert(vstd::relations::transitive(id_leq()));
        assert(vstd::relations::strongly_connected(id_leq()));
    }
    let pa = a.governance.allowed_ports@;
    let pb = b.governance.allowed_ports@;
    pa.lemma_sort_by_ensures(port_leq());
    pb.lemma_sort_by_ensures(port_leq());
    vstd::seq_lib::lemma_sorted_unique(pa.sort_by(port_leq()), pb.sort_by(port_leq()), port_leq());
    let ia = a.goal_dag.spec_goal_ids();
    let ib = b.goal_dag.spec_goal_ids();
    ia.lemma_sort_by_ensures(id_leq());
    ib.lemma_sort_by_ensures(id_leq());
    vstd::seq_lib::lemma_sorted_unique(ia.sort_by(id_leq()), ib.sort_by(id_leq()), id_leq());
    lemma_goals_bytes_agree(a.goal_dag, b.goal_dag, ia.sort_by(id_leq()));
    assert(manifold_bytes(a) == manifold_bytes(b));
}

} // verus!

