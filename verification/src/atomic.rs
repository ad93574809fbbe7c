//! Atomic contracts of goals: inputs, outputs, invariants and isolation.

use vstd::prelude::*;

verus! {

/// An input of an atomic module (`declared_type` is its declared type).
pub struct InputSpec {
    pub name: String,
    pub declared_type: String,
    pub description: String,
    pub is_required: bool,
}

/// An output of an atomic module (`declared_type` is its declared type).
pub struct OutputSpec {
    pub name: String,
    pub declared_type: String,
    pub description: String,
}

/// Severity of an atomic invariant.
#[derive(Debug, Clone, Copy, PartialEq, Eq, Structural)]
pub enum InvariantSeverity {
    Critical,
    Warning,
    Advisory,
}

/// Isolation of an atomic module.
#[derive(Debug, Clone, Copy, PartialEq, Eq, Structural)]
pub enum IsolationLevel {
    Strict,
    Sandboxed,
    Monitored,
}

/// Decomposes goals into atomic modules.
pub struct AtomicSlicer;

} // verus!
