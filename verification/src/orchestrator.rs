//! Results of the enhanced workflow.

use vstd::prelude::*;

verus! {

/// An architecture that emerged from the agents' work.
pub struct EmergentArchitecture {
    pub components: Vec<String>,
    pub dependencies: Vec<(String, String)>,
}

/// How work is spread over agents.
pub struct ResourceAllocation {
    pub component_parallelism: usize,
    pub agent_count: usize,
    pub estimated_time: String,
}

/// Outcome of executing the modules.
pub struct ExecutionResult {
    pub success: bool,
    pub modules_completed: usize,
    pub validation_passed: bool,
}

/// Everything the enhanced workflow produced.
pub struct EnhancedWorkflowResult {
    pub intent_anchor: String,
    pub agents_spawned: usize,
    pub architecture: EmergentArchitecture,
    pub resource_allocation: ResourceAllocation,
    pub execution_result: ExecutionResult,
}

} // verus!
