//! Goals: single objectives of the manifold with their success criteria and
//! dependencies.

use vstd::prelude::*;
use crate::error::{GoalError, SentinelError};
use crate::predicate::Predicate;

verus! {

/// Execution status of a goal.
#[derive(Debug, Clone, Copy, PartialEq, Eq, Structural)]
pub enum GoalStatus {
    Pending,
    Ready,
    InProgress,
    Validating,
    Completed,
    Failed,
    Blocked,
    Deprecated,
}

/// Bookkeeping of a goal.
pub struct GoalMetadata {
    /// Tags for categorization, each once
    pub tags: Vec<String>,
    /// Number of attempts
    pub retry_count: u32,
    /// If failed, the reason
    pub failure_reason: Option<String>,
    /// If blocked, the reason
    pub blocked_reason: Option<String>,
    /// If blocked, the blocking goals
    pub blocker_ids: Vec<u128>,
    /// Notes from execution
    pub notes: Vec<String>,
}

/// A single goal.
///
/// Ids are UUIDs held as their 128-bit value; `value_to_root` holds the bits
/// of the fraction of the root objective that the goal contributes;
/// `criteria_json` is the JSON text of the success criteria, the form in
/// which they enter the manifold's integrity hash.
pub struct Goal {
    /// Unique identifier
    pub id: u128,
    /// Human-readable description
    pub description: String,
    /// Success criteria: all must hold for the goal to be complete
    pub success_criteria: Vec<Predicate>,
    /// The success criteria as JSON text
    pub criteria_json: String,
    /// Goals that must complete before this one can start
    pub dependencies: Vec<u128>,
    /// Goals that must not be worked on together with this one
    pub anti_dependencies: Vec<u128>,
    /// Contribution to the root objective (bits of a fraction)
    pub value_to_root: u64,
    /// Mean of the complexity estimate, on a 1-10 scale (bits of a number)
    pub complexity_mean: u64,
    /// Current execution status
    pub status: GoalStatus,
    /// Parent goal, for hierarchical decomposition
    pub parent_id: Option<u128>,
    /// Tests that validate this goal
    pub validation_tests: Vec<String>,
    /// Bookkeeping
    pub metadata: GoalMetadata,
}

/// Whether `v` holds `x` (the slice `contains` of std).
pub fn contains_id(v: &Vec<u128>, x: u128) -> (r: bool)
    ensures
        r == v@.contains(x),
{
    let mut i: usize = 0;
    while i < v.len()
        invariant
            i <= v.len(),
            forall|j: int| 0 <= j < i ==> v@[j] != x,
        decreases v.len() - i,
    {
        if v[i] == x {
            return true;
        }
        i = i + 1;
    }
    false
}

impl GoalMetadata {
    /// Empty bookkeeping.
    pub fn empty() -> (m: GoalMetadata)
        ensures
            m.tags@ == Seq::<String>::empty(),
            m.retry_count == 0,
            m.failure_reason is None,
            m.blocked_reason is None,
            m.blocker_ids@ == Seq::<u128>::empty(),
            m.notes@ == Seq::<String>::empty(),
    {
        GoalMetadata {
            tags: Vec::new(),
            retry_count: 0,
            failure_reason: None,
            blocked_reason: None,
            blocker_ids: Vec::new(),
            notes: Vec::new(),
        }
    }
}

/// The floating-point number with bits `b` lies in `[0.0, 1.0]`: it is
/// `+0.0` up to `1.0` (positive numbers order as their bits do), or `-0.0`.
pub open spec fn in_unit_interval(b: u64) -> bool {
    b <= 0x3ff0_0000_0000_0000 || b == 0x8000_0000_0000_0000
}

/// The bits of 5.0, the complexity of a goal made without an estimate.
pub const DEFAULT_COMPLEXITY: u64 = 0x4014_0000_0000_0000u64;

/// The floating-point number with bits `b` lies in `[0.0, 10.0]`: `+0.0` up
/// to `10.0`, or `-0.0`.
pub open spec fn complexity_in_range(b: u64) -> bool {
    b <= 0x4024_0000_0000_0000 || b == 0x8000_0000_0000_0000
}

impl Goal {
    /// A pending goal with this id and description and nothing else: no
    /// criteria (whose JSON text is `[]`), no dependencies, value zero.
    pub fn with_id(id: u128, description: String) -> (g: Goal)
        ensures
            g.id == id,
            g.description == description,
            g.success_criteria@.len() == 0,
            g.criteria_json@ == seq!['[', ']'],
            g.dependencies@ == Seq::<u128>::empty(),
            g.anti_dependencies@ == Seq::<u128>::empty(),
            g.value_to_root == 0,
            g.complexity_mean == DEFAULT_COMPLEXITY,
            g.status == GoalStatus::Pending,
            g.parent_id is None,
            g.validation_tests@ == Seq::<String>::empty(),
            g.metadata.tags@ == Seq::<String>::empty(),
            g.metadata.notes@ == Seq::<String>::empty(),
    {
        let json = "[]".to_owned();
        proof {
            reveal_strlit("[]");
        }
        Goal {
            id,
            description,
            success_criteria: Vec::new(),
            criteria_json: json,
            dependencies: Vec::new(),
            anti_dependencies: Vec::new(),
            value_to_root: 0,
            complexity_mean: DEFAULT_COMPLEXITY,
            status: GoalStatus::Pending,
            parent_id: None,
            validation_tests: Vec::new(),
            metadata: GoalMetadata::empty(),
        }
    }

    /// Check the goal's own invariants: its value lies in `[0.0, 1.0]`, it
    /// has at least one success criterion, and its complexity mean lies in
    /// `[0.0, 10.0]`; they are checked in this order.
    pub fn validate(&self) -> (r: Result<(), SentinelError>)
        ensures
            !in_unit_interval(self.value_to_root) ==> r == Err::<(), SentinelError>(
                SentinelError::Goal(GoalError::InvalidValue(self.value_to_root)),
            ),
            in_unit_interval(self.value_to_root) && self.success_criteria@.len() == 0 ==> r == Err::<
                (),
                SentinelError,
            >(SentinelError::Goal(GoalError::EmptySuccessCriteria)),
            in_unit_interval(self.value_to_root) && self.success_criteria@.len() > 0 && !complexity_in_range(
                self.complexity_mean,
            ) ==> r == Err::<(), SentinelError>(
                SentinelError::Goal(GoalError::ComplexityOutOfRange(self.complexity_mean)),
            ),
            r is Ok <==> (in_unit_interval(self.value_to_root) && self.success_criteria@.len() > 0
                && complexity_in_range(self.complexity_mean)),
    {
        let v = self.value_to_root;
        if !(v <= 0x3ff0_0000_0000_0000u64 || v == 0x8000_0000_0000_0000u64) {
            return Err(SentinelError::Goal(GoalError::InvalidValue(v)));
        }
        if self.success_criteria.len() == 0 {
            return Err(SentinelError::Goal(GoalError::EmptySuccessCriteria));
        }
        let c = self.complexity_mean;
        if !(c <= 0x4024_0000_0000_0000u64 || c == 0x8000_0000_0000_0000u64) {
            return Err(SentinelError::Goal(GoalError::ComplexityOutOfRange(c)));
        }
        Ok(())
    }

    /// A pending goal with this description and a fresh random id, and
    /// nothing else (see `with_id`).
    pub fn new(description: String) -> (g: Goal)
        ensures
            g.description == description,
            g.success_criteria@.len() == 0,
            g.criteria_json@ == seq!['[', ']'],
            g.dependencies@ == Seq::<u128>::empty(),
            g.anti_dependencies@ == Seq::<u128>::empty(),
            g.value_to_root == 0,
            g.status == GoalStatus::Pending,
    {
        Goal::with_id(crate::manifold::new_uuid(), description)
    }

    /// Add a tag unless the goal already has it.
    pub fn add_tag(&mut self, tag: String)
        ensures
            crate::strings::has_string(old(self).metadata.tags@, tag@) ==> final(self).metadata.tags@
                == old(self).metadata.tags@,
            !crate::strings::has_string(old(self).metadata.tags@, tag@) ==> final(self).metadata.tags@ == old(self).metadata.tags@.push(tag),
            final(self).id == old(self).id,
            final(self).description == old(self).description,
            final(self).status == old(self).status,
            final(self).dependencies == old(self).dependencies,
            final(self).value_to_root == old(self).value_to_root,
            final(self).criteria_json == old(self).criteria_json,
    {
        if !crate::strings::contains_string(&self.metadata.tags, &tag) {
            self.metadata.tags.push(tag);
        }
    }

    /// Add a note.
    pub fn add_note(&mut self, note: String)
        ensures
            final(self).metadata.notes@ == old(self).metadata.notes@.push(note),
            final(self).metadata.tags == old(self).metadata.tags,
            final(self).id == old(self).id,
            final(self).description == old(self).description,
            final(self).status == old(self).status,
            final(self).dependencies == old(self).dependencies,
            final(self).value_to_root == old(self).value_to_root,
            final(self).criteria_json == old(self).criteria_json,
    {
        self.metadata.notes.push(note);
    }
}

/// A goal under construction. Everything but the description has a
/// default: no criteria, dependencies, tests or tags, value zero, the
/// default complexity, no parent. `criteria_json` is the JSON text of the
/// success criteria as the caller wrote it out (the form in which they enter
/// the manifold's hash).
pub struct GoalBuilder {
    pub description: Option<String>,
    pub success_criteria: Vec<Predicate>,
    pub criteria_json: String,
    pub dependencies: Vec<u128>,
    pub anti_dependencies: Vec<u128>,
    pub complexity_mean: Option<u64>,
    pub value_to_root: u64,
    pub parent_id: Option<u128>,
    pub validation_tests: Vec<String>,
    pub tags: Vec<String>,
}

impl Goal {
    /// A builder with nothing set.
    pub fn builder() -> (b: GoalBuilder)
        ensures
            b.description is None,
            b.success_criteria@.len() == 0,
            b.criteria_json@ == seq!['[', ']'],
            b.dependencies@.len() == 0,
            b.anti_dependencies@.len() == 0,
            b.complexity_mean is None,
            b.value_to_root == 0,
            b.parent_id is None,
            b.validation_tests@.len() == 0,
            b.tags@.len() == 0,
    {
        let json = "[]".to_owned();
        proof {
            reveal_strlit("[]");
        }
        GoalBuilder {
            description: None,
            success_criteria: Vec::new(),
            criteria_json: json,
            dependencies: Vec::new(),
            anti_dependencies: Vec::new(),
            complexity_mean: None,
            value_to_root: 0,
            parent_id: None,
            validation_tests: Vec::new(),
            tags: Vec::new(),
        }
    }
}

impl GoalBuilder {
    /// Set the description.
    pub fn description(self, desc: String) -> (b: GoalBuilder)
        ensures
            b == (GoalBuilder { description: Some(desc), ..self }),
    {
        GoalBuilder { description: Some(desc), ..self }
    }

    /// Add a success criterion.
    pub fn add_success_criterion(self, predicate: Predicate) -> (b: GoalBuilder)
        ensures
            b.success_criteria@ == self.success_criteria@.push(predicate),
            b.description == self.description,
            b.criteria_json == self.criteria_json,
            b.dependencies == self.dependencies,
            b.anti_dependencies == self.anti_dependencies,
            b.complexity_mean == self.complexity_mean,
            b.value_to_root == self.value_to_root,
            b.parent_id == self.parent_id,
            b.validation_tests == self.validation_tests,
            b.tags == self.tags,
    {
        let mut b = self;
        b.success_criteria.push(predicate);
        b
    }

    /// Set all success criteria.
    pub fn success_criteria(self, criteria: Vec<Predicate>) -> (b: GoalBuilder)
        ensures
            b == (GoalBuilder { success_criteria: criteria, ..self }),
    {
        GoalBuilder { success_criteria: criteria, ..self }
    }

    /// Set the JSON text of the success criteria.
    pub fn criteria_json(self, json: String) -> (b: GoalBuilder)
        ensures
            b == (GoalBuilder { criteria_json: json, ..self }),
    {
        GoalBuilder { criteria_json: json, ..self }
    }

    /// Add a dependency.
    pub fn add_dependency(self, dep: u128) -> (b: GoalBuilder)
        ensures
            b.dependencies@ == self.dependencies@.push(dep),
            b.description == self.description,
            b.success_criteria == self.success_criteria,
            b.criteria_json == self.criteria_json,
            b.anti_dependencies == self.anti_dependencies,
            b.complexity_mean == self.complexity_mean,
            b.value_to_root == self.value_to_root,
            b.parent_id == self.parent_id,
            b.validation_tests == self.validation_tests,
            b.tags == self.tags,
    {
        let mut b = self;
        b.dependencies.push(dep);
        b
    }

    /// Set all dependencies.
    pub fn dependencies(self, deps: Vec<u128>) -> (b: GoalBuilder)
        ensures
            b == (GoalBuilder { dependencies: deps, ..self }),
    {
        GoalBuilder { dependencies: deps, ..self }
    }

    /// Add an anti-dependency.
    pub fn add_anti_dependency(self, anti_dep: u128) -> (b: GoalBuilder)
        ensures
            b.anti_dependencies@ == self.anti_dependencies@.push(anti_dep),
            b.description == self.description,
            b.success_criteria == self.success_criteria,
            b.criteria_json == self.criteria_json,
            b.dependencies == self.dependencies,
            b.complexity_mean == self.complexity_mean,
            b.value_to_root == self.value_to_root,
            b.parent_id == self.parent_id,
            b.validation_tests == self.validation_tests,
            b.tags == self.tags,
    {
        let mut b = self;
        b.anti_dependencies.push(anti_dep);
        b
    }

    /// Set the mean of the complexity estimate (bits of a number).
    pub fn complexity(self, mean: u64) -> (b: GoalBuilder)
        ensures
            b == (GoalBuilder { complexity_mean: Some(mean), ..self }),
    {
        GoalBuilder { complexity_mean: Some(mean), ..self }
    }

    /// Set the contribution to the root objective (bits of a fraction).
    pub fn value_to_root(self, value: u64) -> (b: GoalBuilder)
        ensures
            b == (GoalBuilder { value_to_root: value, ..self }),
    {
        GoalBuilder { value_to_root: value, ..self }
    }

    /// Set the parent goal.
    pub fn parent(self, parent_id: u128) -> (b: GoalBuilder)
        ensures
            b == (GoalBuilder { parent_id: Some(parent_id), ..self }),
    {
        GoalBuilder { parent_id: Some(parent_id), ..self }
    }

    /// Set the validation tests.
    pub fn validation_tests(self, tests: Vec<String>) -> (b: GoalBuilder)
        ensures
            b == (GoalBuilder { validation_tests: tests, ..self }),
    {
        GoalBuilder { validation_tests: tests, ..self }
    }

    /// Add a tag.
    pub fn add_tag(self, tag: String) -> (b: GoalBuilder)
        ensures
            b.tags@ == self.tags@.push(tag),
            b.description == self.description,
            b.success_criteria == self.success_criteria,
            b.criteria_json == self.criteria_json,
            b.dependencies == self.dependencies,
            b.anti_dependencies == self.anti_dependencies,
            b.complexity_mean == self.complexity_mean,
            b.value_to_root == self.value_to_root,
            b.parent_id == self.parent_id,
            b.validation_tests == self.validation_tests,
    {
        let mut b = self;
        b.tags.push(tag);
        b
    }

    /// Build the goal: a pending goal with a fresh random id and what was
    /// set. Without a description it is refused ("Description required");
    /// a goal that fails its own check (see `Goal::validate`) is refused
    /// with that error.
    pub fn build(self) -> (r: Result<Goal, SentinelError>)
        ensures
            self.description is None ==> (r matches Err(SentinelError::Goal(GoalError::InvalidComplexity(m)))
                && m@ == "Description required"@),
            self.description matches Some(d) ==> {
                let mean = match self.complexity_mean {
                    Some(c) => c,
                    None => DEFAULT_COMPLEXITY,
                };
                &&& !in_unit_interval(self.value_to_root) ==> r == Err::<Goal, SentinelError>(
                    SentinelError::Goal(GoalError::InvalidValue(self.value_to_root)),
                )
                &&& in_unit_interval(self.value_to_root) && self.success_criteria@.len() == 0 ==> r == Err::<
                    Goal,
                    SentinelError,
                >(SentinelError::Goal(GoalError::EmptySuccessCriteria))
                &&& in_unit_interval(self.value_to_root) && self.success_criteria@.len() > 0
                    && !complexity_in_range(mean) ==> r == Err::<Goal, SentinelError>(
                    SentinelError::Goal(GoalError::ComplexityOutOfRange(mean)),
                )
                &&& r is Ok <==> (in_unit_interval(self.value_to_root) && self.success_criteria@.len() > 0
                    && complexity_in_range(mean))
                &&& r matches Ok(g) ==> {
                    &&& g.description == d
                    &&& g.success_criteria == self.success_criteria
                    &&& g.criteria_json == self.criteria_json
                    &&& g.dependencies == self.dependencies
                    &&& g.anti_dependencies == self.anti_dependencies
                    &&& g.value_to_root == self.value_to_root
                    &&& g.complexity_mean == mean
                    &&& g.status == GoalStatus::Pending
                    &&& g.parent_id == self.parent_id
                    &&& g.validation_tests == self.validation_tests
                    &&& g.metadata.tags == self.tags
                    &&& g.metadata.retry_count == 0
                    &&& g.metadata.notes@.len() == 0
                }
            },
    {
        let description = match self.description {
            Some(d) => d,
            None => {
                return Err(SentinelError::Goal(GoalError::InvalidComplexity("Description required".to_owned())));
            },
        };
        let mean = match self.complexity_mean {
            Some(c) => c,
            None => DEFAULT_COMPLEXITY,
        };
        let mut metadata = GoalMetadata::empty();
        metadata.tags = self.tags;
        let goal = Goal {
            id: crate::manifold::new_uuid(),
            description,
            success_criteria: self.success_criteria,
            criteria_json: self.criteria_json,
            dependencies: self.dependencies,
            anti_dependencies: self.anti_dependencies,
            value_to_root: self.value_to_root,
            complexity_mean: mean,
            status: GoalStatus::Pending,
            parent_id: self.parent_id,
            validation_tests: self.validation_tests,
            metadata,
        };
        match goal.validate() {
            Ok(()) => Ok(goal),
            Err(e) => Err(e),
        }
    }
}

} // verus!
