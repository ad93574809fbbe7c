//! Error types of the engine.

use vstd::prelude::*;
pub use crate::dag::DagError;

verus! {

/// Errors of goal operations. Ids are UUIDs held as their 128-bit value; an
/// invalid value is held as the bits of the floating-point number.
#[derive(Debug)]
pub enum GoalError {
    NotFound(u128),
    AlreadyExists(u128),
    InvalidStateTransition { from: String, to: String },
    UnresolvedDependencies(Vec<u128>),
    InvalidComplexity(String),
    InvalidValue(u64),
    EmptySuccessCriteria,
    /// The complexity mean (bits of the number) lies outside `[0.0, 10.0]`
    ComplexityOutOfRange(u64),
}

/// Errors of predicate evaluation.
#[derive(Debug)]
pub enum PredicateError {
    FileNotFound(String),
    TestSuiteNotFound(String),
    EndpointUnreachable(String),
    InvalidJsonSchema(String),
    CustomPredicateFailed(String),
    TypeMismatch { expected: String, actual: String },
    Timeout(u64),
}

/// The engine's error. Failures of serialisation and of I/O carry their
/// message.
#[derive(Debug)]
pub enum SentinelError {
    Goal(GoalError),
    Dag(DagError),
    Predicate(PredicateError),
    InvariantViolation(String),
    Serialization(String),
    Io(String),
    InvalidInput(String),
    NotImplemented(String),
    WithContext { context: String, source: Box<SentinelError> },
}

impl SentinelError {
    /// This error, wrapped with a line of context.
    pub fn context(self, context: String) -> (r: SentinelError)
        ensures
            r == (SentinelError::WithContext { context: context, source: Box::new(self) }),
    {
        SentinelError::WithContext { context, source: Box::new(self) }
    }
}

/// Adding context to the error of a result.
pub trait ResultExt<T>: Sized {
    /// The result, its error (if any) wrapped with a line of context.
    fn context(self, context: String) -> Result<T, SentinelError>;
}

impl<T> ResultExt<T> for Result<T, SentinelError> {
    fn context(self, context: String) -> (r: Result<T, SentinelError>)
        ensures
            match self {
                Ok(v) => r == Ok::<T, SentinelError>(v),
                Err(e) => r == Err::<T, SentinelError>(
                    SentinelError::WithContext { context: context, source: Box::new(e) },
                ),
            },
    {
        match self {
            Ok(v) => Ok(v),
            Err(e) => Err(e.context(context)),
        }
    }
}

} // verus!
