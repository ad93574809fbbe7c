//! Execution contract types: the state machine of an execution, its result,
//! and the north star that justifies it.

use vstd::prelude::*;
use crate::error::SentinelError;
use crate::strings::chars_of;
pub use crate::manifold::ReliabilityThresholds;

verus! {

/// States of an execution.
#[derive(Debug, Clone, Copy, PartialEq, Eq, Structural)]
pub enum ExecutionStatus {
    IntentCaptured,
    PlanCompiled,
    Ready,
    Executing,
    QualityEvaluating,
    RevisionRequired,
    Validated,
    Delivered,
    Failed,
}

/// Result of an execution.
pub struct ExecutionResult {
    pub status: ExecutionStatus,
    pub error_message: Option<String>,
}

impl Default for ExecutionResult {
    fn default() -> (r: ExecutionResult)
        ensures
            r.status == ExecutionStatus::Ready,
            r.error_message is None,
    {
        ExecutionResult { status: ExecutionStatus::Ready, error_message: None }
    }
}

/// Execution engine of a run.
pub struct ExecutionEngine {
    pub run_id: String,
}

impl ExecutionEngine {
    /// An engine for the run.
    pub fn new(run_id: String) -> (e: ExecutionEngine)
        ensures
            e.run_id == run_id,
    {
        ExecutionEngine { run_id }
    }
}

/// The character has the Unicode `White_Space` property (`char::is_whitespace`).
pub open spec fn is_white_space(c: char) -> bool {
    ||| '\u{9}' <= c <= '\u{d}'
    ||| c == ' '
    ||| c == '\u{85}'
    ||| c == '\u{a0}'
    ||| c == '\u{1680}'
    ||| '\u{2000}' <= c <= '\u{200a}'
    ||| c == '\u{2028}'
    ||| c == '\u{2029}'
    ||| c == '\u{202f}'
    ||| c == '\u{205f}'
    ||| c == '\u{3000}'
}

/// The text is empty once surrounding white space is trimmed.
pub open spec fn blank(s: Seq<char>) -> bool {
    forall|i: int| 0 <= i < s.len() ==> is_white_space(#[trigger] s[i])
}

/// Whether `c` is white space.
pub(crate) fn white_space(c: char) -> (b: bool)
    ensures
        b == is_white_space(c),
{
    ('\u{9}' <= c && c <= '\u{d}') || c == ' ' || c == '\u{85}' || c == '\u{a0}' || c == '\u{1680}'
        || ('\u{2000}' <= c && c <= '\u{200a}') || c == '\u{2028}' || c == '\u{2029}'
        || c == '\u{202f}' || c == '\u{205f}' || c == '\u{3000}'
}

/// Whether `s` is empty once trimmed (`s.trim().is_empty()`).
pub fn is_blank(s: &String) -> (b: bool)
    ensures
        b == blank(s@),
{
    let chars = chars_of(s.as_str());
    let mut i: usize = 0;
    while i < chars.len()
        invariant
            i <= chars@.len(),
            chars@ == s@,
            forall|j: int| 0 <= j < i ==> is_white_space(#[trigger] chars@[j]),
        decreases chars.len() - i,
    {
        if !white_space(chars[i]) {
            return false;
        }
        i = i + 1;
    }
    true
}

/// The explicit contract of an execution: where we are, where we must go,
/// how, and why.
pub struct ExecutionNorthStar {
    pub where_we_are: String,
    pub where_we_must_go: String,
    pub how: String,
    pub why: String,
    pub constraints: Vec<String>,
}

impl ExecutionNorthStar {
    /// Every axis is stated: the first blank one, in the order where we are,
    /// where we must go, how, why, is reported as invalid input.
    pub fn validate(&self) -> (r: Result<(), SentinelError>)
        ensures
            blank(self.where_we_are@) ==> (r matches Err(SentinelError::InvalidInput(m)) && m@
                == "where_we_are is empty"@),
            !blank(self.where_we_are@) && blank(self.where_we_must_go@) ==> (r matches Err(
                SentinelError::InvalidInput(m),
            ) && m@ == "where_we_must_go is empty"@),
            !blank(self.where_we_are@) && !blank(self.where_we_must_go@) && blank(self.how@) ==> (
            r matches Err(SentinelError::InvalidInput(m)) && m@ == "how is empty"@),
            !blank(self.where_we_are@) && !blank(self.where_we_must_go@) && !blank(self.how@)
                && blank(self.why@) ==> (r matches Err(SentinelError::InvalidInput(m)) && m@
                == "why is empty"@),
            r is Ok <==> (!blank(self.where_we_are@) && !blank(self.where_we_must_go@) && !blank(
                self.how@,
            ) && !blank(self.why@)),
    {
        if is_blank(&self.where_we_are) {
            return Err(SentinelError::InvalidInput("where_we_are is empty".to_owned()));
        }
        if is_blank(&self.where_we_must_go) {
            return Err(SentinelError::InvalidInput("where_we_must_go is empty".to_owned()));
        }
        if is_blank(&self.how) {
            return Err(SentinelError::InvalidInput("how is empty".to_owned()));
        }
        if is_blank(&self.why) {
            return Err(SentinelError::InvalidInput("why is empty".to_owned()));
        }
        Ok(())
    }
}

/// Whether a reporting window meets the reliability thresholds, and the
/// violations found.
pub struct ReliabilityEvaluation {
    pub healthy: bool,
    pub violations: Vec<String>,
}

impl ReliabilityEvaluation {
    /// The evaluation of a list of violations: healthy exactly when there are none.
    pub fn from_violations(violations: Vec<String>) -> (e: ReliabilityEvaluation)
        ensures
            e.healthy == (violations@.len() == 0),
            e.violations == violations,
    {
        ReliabilityEvaluation { healthy: violations.len() == 0, violations }
    }
}

} // verus!
