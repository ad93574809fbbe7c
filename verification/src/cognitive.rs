//! Vocabulary of the cognitive state: changes made by actions, decisions,
//! uncertainty, insights and modes.

use vstd::prelude::*;

verus! {

/// A change an action made.
#[derive(Debug)]
pub enum Change {
    FileCreated { path: String },
    FileModified { path: String, old_hash: String, new_hash: String },
    FileDeleted { path: String, backup_path: Option<String> },
    CommandExecuted { command: String, exit_code: i32 },
}

/// Kind of decision about an action.
#[derive(Debug, Clone, Copy, PartialEq, Eq, Structural)]
pub enum DecisionType {
    Approve,
    Reject,
    ProposeAlternative,
    Skip,
    Defer,
}

/// Kind of uncertainty.
#[derive(Debug, Clone, Copy, PartialEq, Eq, Structural)]
pub enum UncertaintyType {
    Aleatory,
    Epistemic,
    Ontological,
}

/// Kind of meta-cognitive insight.
#[derive(Debug, Clone, Copy, PartialEq, Eq, Structural)]
pub enum InsightType {
    BehavioralPattern,
    BiasDetection,
    PredictionImprovement,
    StrategyImprovement,
    LimitationAwareness,
    SuccessfulCorrection,
}

/// Mode of the cognitive state.
#[derive(Debug, Clone, Copy, PartialEq, Eq, Structural)]
pub enum CognitiveMode {
    Planning,
    Executing,
    Validating,
    Debugging,
    Learning,
    Reflecting,
}

} // verus!
