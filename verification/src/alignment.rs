//! Alignment vocabulary: uncertainty models, risk levels, project files and
//! metrics, and how alignment stands and moves.

use vstd::prelude::*;
use crate::goal::{Goal, GoalStatus};

verus! {

/// Uncertainty model of a simulation.
#[derive(Debug, Clone, Copy, PartialEq, Eq, Structural)]
pub enum UncertaintyModel {
    /// Small variations
    Optimistic,
    /// Moderate variations
    Realistic,
    /// Large variations
    Pessimistic,
}

/// Risk level of an action.
#[derive(Debug, Clone, Copy, PartialEq, Eq, Structural)]
pub enum RiskLevel {
    Low,
    Medium,
    High,
    Critical,
}

/// Type of a project file.
#[derive(Debug, Clone, Copy, PartialEq, Eq, Structural)]
pub enum FileType {
    Source,
    Test,
    Config,
    Documentation,
    Other,
}

/// State of a project file; `modified` is milliseconds since the Unix epoch.
pub struct FileState {
    pub path: String,
    pub content_hash: [u8; 32],
    pub size: u64,
    pub modified: i64,
    pub file_type: FileType,
}

/// Kinds of code metrics.
#[derive(Debug, Clone, Copy, PartialEq, Eq, Structural)]
pub enum MetricType {
    LinesOfCode,
    FunctionCount,
    ClassCount,
    AvgComplexity,
    TechDebtRatio,
    TestCoverage,
}

/// How well an action or state is aligned.
#[derive(Debug, Clone, Copy, PartialEq, Eq, Structural)]
pub enum AlignmentSeverity {
    Excellent,
    Good,
    Acceptable,
    Concerning,
    Deviation,
    Critical,
}

/// How alignment moves over time.
#[derive(Debug, Clone, Copy, PartialEq, Eq, Structural)]
pub enum AlignmentTrend {
    Improving,
    Stable,
    Degrading,
}

/// Results of a test suite; `coverage` (a fraction) and `duration` (in
/// seconds) hold the bits of numbers.
pub struct TestResults {
    pub suite: String,
    pub total: usize,
    pub passed: usize,
    pub failed: usize,
    pub skipped: usize,
    pub coverage: u64,
    pub duration: u64,
}

impl TestResults {
    /// Whether every test that ran passed: none failed and all but the
    /// skipped ones passed.
    pub fn all_passed(&self) -> (b: bool)
        requires
            self.skipped <= self.total,
        ensures
            b == (self.failed == 0 && self.passed == self.total - self.skipped),
    {
        self.failed == 0 && self.passed == self.total - self.skipped
    }
}

/// How far a goal has come; `completion` holds the bits of a fraction.
pub struct GoalState {
    pub id: u128,
    pub status: GoalStatus,
    pub completion: u64,
    pub criteria_satisfied: usize,
    pub criteria_total: usize,
}

impl GoalState {
    /// The state of a goal that has just been taken up: its id and status,
    /// nothing completed, none of its success criteria satisfied yet.
    pub fn from_goal(goal: &Goal) -> (s: GoalState)
        ensures
            s.id == goal.id,
            s.status == goal.status,
            s.completion == 0,
            s.criteria_satisfied == 0,
            s.criteria_total == goal.success_criteria@.len(),
    {
        GoalState {
            id: goal.id,
            status: goal.status,
            completion: 0,
            criteria_satisfied: 0,
            criteria_total: goal.success_criteria.len(),
        }
    }

    /// Whether the goal is completed.
    pub fn is_complete(&self) -> (b: bool)
        ensures
            b == (self.status == GoalStatus::Completed),
    {
        self.status == GoalStatus::Completed
    }
}

} // verus!
