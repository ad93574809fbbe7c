//! The execution guardrail: the barrier in front of commands and builds,
//! which holds them back while alignment is below the manifold's sensitivity
//! or a critical invariant is violated.

use vstd::prelude::*;
use crate::manifold::{violation_view, violations_upto, GoalManifold, InvariantSeverity, InvariantViolation};
use crate::predicate::Comparison;
use crate::predicate_eval::{compare_bits, compares};
use crate::text::{concat_text, decimal_chars, decimal_text, string_from_chars};

verus! {

/// How many human overrides the guardrail tolerates before it calls the
/// system unstable.
pub const MAX_OVERRIDES: usize = 10;

/// The execution guardrail.
pub struct GuardrailEngine;

/// What the guardrail decided.
#[derive(Debug, Clone, Copy, PartialEq, Eq, Structural)]
pub enum GuardrailVerdict {
    /// Execution may go on.
    Allowed,
    /// The completion score is below the manifold's sensitivity.
    BelowThreshold,
    /// This many critical invariants are violated.
    CriticalInvariants(usize),
    /// Too many human overrides were recorded.
    Unstable,
}

/// How many of the reported violations are of critical invariants.
pub open spec fn critical_count(v: Seq<(u128, Seq<char>, InvariantSeverity)>) -> nat
    decreases v.len(),
{
    if v.len() == 0 {
        0
    } else {
        critical_count(v.drop_last()) + if v.last().2 == InvariantSeverity::Critical {
            1nat
        } else {
            0nat
        }
    }
}

/// The guardrail's verdict for a completion score and a threshold (bits of
/// floating-point numbers), the violations found and the number of human
/// overrides: blocked below the threshold, then on critical violations,
/// then on more than `MAX_OVERRIDES` overrides.
pub open spec fn verdict_for(
    score: u64,
    threshold: u64,
    violations: Seq<(u128, Seq<char>, InvariantSeverity)>,
    override_count: nat,
) -> GuardrailVerdict {
    if compares(Comparison::LessThan, score, threshold) {
        GuardrailVerdict::BelowThreshold
    } else if critical_count(violations) > 0 {
        GuardrailVerdict::CriticalInvariants(critical_count(violations) as usize)
    } else if override_count > MAX_OVERRIDES {
        GuardrailVerdict::Unstable
    } else {
        GuardrailVerdict::Allowed
    }
}

/// The number of violations of critical invariants.
pub fn count_critical(violations: &Vec<InvariantViolation>) -> (n: usize)
    ensures
        n == critical_count(violations@.map_values(|v: InvariantViolation| violation_view(v))),
{
    let ghost views = violations@.map_values(|v: InvariantViolation| violation_view(v));
    let mut n: usize = 0;
    let mut i: usize = 0;
    while i < violations.len()
        invariant
            i <= violations@.len(),
            views == violations@.map_values(|v: InvariantViolation| violation_view(v)),
            n == critical_count(views.take(i as int)),
            n <= i,
        decreases violations.len() - i,
    {
        proof {
            assert(views.take(i as int + 1).drop_last() == views.take(i as int));
        }
        match violations[i].severity {
            InvariantSeverity::Critical => {
                n = n + 1;
            },
            _ => {},
        }
        i = i + 1;
    }
    proof {
        assert(views.take(violations@.len() as int) == views);
    }
    n
}

/// The guardrail's answer: whether execution may go on, why not, and the
/// completion score it was checked at (bits of a floating-point number).
#[derive(Debug, Clone)]
pub struct GuardrailDecision {
    pub allowed: bool,
    pub reason: Option<String>,
    pub score_at_check: u64,
}

/// The reason given for a verdict, with the score and the threshold already
/// written as percentages.
pub open spec fn reason_for(v: GuardrailVerdict, score_percent: Seq<char>, threshold_percent: Seq<char>) -> Option<
    Seq<char>,
> {
    match v {
        GuardrailVerdict::Allowed => None,
        GuardrailVerdict::BelowThreshold => Some(
            "ALIGNMENT CRITICAL: Il progetto ha un allineamento del "@ + score_percent
                + "%, inferiore alla soglia di sicurezza ("@ + threshold_percent
                + "%). Esecuzione bloccata."@,
        ),
        GuardrailVerdict::CriticalInvariants(n) => Some(
            "CRITICAL INVARIANTS VIOLATED: "@ + decimal_text(n as nat)
                + " invarianti critiche non soddisfatte."@,
        ),
        GuardrailVerdict::Unstable => Some(
            "SYSTEM INSTABILITY: Rilevati troppi Human Overrides. Calibrare il sistema prima di procedere."@,
        ),
    }
}

/// `a` followed by the text `b`.
fn append_text(a: String, b: &str) -> (r: String)
    ensures
        r@ == a@ + b@,
{
    concat_text(a.as_str(), &b.to_owned())
}

impl GuardrailEngine {
    /// Decide whether to let execution go on, given the manifold's completion
    /// score (bits of a floating-point number), the outcome of evaluating
    /// each invariant's predicate, in order, and the number of human
    /// overrides on record. The threshold is the manifold's sensitivity.
    pub fn evaluate_with_outcomes(
        manifold: &GoalManifold,
        score: u64,
        outcomes: &Vec<Result<bool, String>>,
        override_count: usize,
    ) -> (r: GuardrailVerdict)
        requires
            outcomes@.len() == manifold.invariants@.len(),
        ensures
            r == verdict_for(
                score,
                manifold.sensitivity,
                violations_upto(manifold.invariants@, outcomes@, outcomes@.len()),
                override_count as nat,
            ),
    {
        if compare_bits(Comparison::LessThan, score, manifold.sensitivity) {
            return GuardrailVerdict::BelowThreshold;
        }
        let violations = manifold.collect_violations(outcomes);
        let critical = count_critical(&violations);
        if critical > 0 {
            return GuardrailVerdict::CriticalInvariants(critical);
        }
        if override_count > MAX_OVERRIDES {
            return GuardrailVerdict::Unstable;
        }
        GuardrailVerdict::Allowed
    }

    /// The decision for a verdict reached at completion score `score` (bits),
    /// given the score and the threshold written as percentages.
    pub fn decision(
        verdict: GuardrailVerdict,
        score: u64,
        score_percent: &String,
        threshold_percent: &String,
    ) -> (d: GuardrailDecision)
        ensures
            d.allowed == (verdict == GuardrailVerdict::Allowed),
            d.score_at_check == score,
            match reason_for(verdict, score_percent@, threshold_percent@) {
                Some(t) => d.reason matches Some(s) && s@ == t,
                None => d.reason is None,
            },
    {
        let reason = match verdict {
            GuardrailVerdict::Allowed => None,
            GuardrailVerdict::BelowThreshold => {
                let a = concat_text("ALIGNMENT CRITICAL: Il progetto ha un allineamento del ", score_percent);
                let b = append_text(a, "%, inferiore alla soglia di sicurezza (");
                let c = concat_text(b.as_str(), threshold_percent);
                Some(append_text(c, "%). Esecuzione bloccata."))
            },
            GuardrailVerdict::CriticalInvariants(n) => {
                let count = string_from_chars(&decimal_chars(n as u64));
                let a = concat_text("CRITICAL INVARIANTS VIOLATED: ", &count);
                Some(append_text(a, " invarianti critiche non soddisfatte."))
            },
            GuardrailVerdict::Unstable => Some(
                "SYSTEM INSTABILITY: Rilevati troppi Human Overrides. Calibrare il sistema prima di procedere.".to_owned(),
            ),
        };
        GuardrailDecision { allowed: verdict == GuardrailVerdict::Allowed, reason, score_at_check: score }
    }
}

/// Whether a reported violation is of a critical invariant.
pub open spec fn is_critical_violation() -> spec_fn((u128, Seq<char>, InvariantSeverity)) -> bool {
    |x: (u128, Seq<char>, InvariantSeverity)| x.2 == InvariantSeverity::Critical
}

/// The critical count is the number of reported violations whose invariant
/// is critical.
pub proof fn law_critical_count_counts_critical(v: Seq<(u128, Seq<char>, InvariantSeverity)>)
    ensures
        critical_count(v) == v.filter(is_critical_violation()).len(),
    decreases v.len(),
{
    reveal(Seq::filter);
    if v.len() > 0 {
        law_critical_count_counts_critical(v.drop_last());
    }
}

/// Violations of invariants that are not critical (warnings, errors) never
/// change the verdict, which is then the same as for an empty list of
/// violations. When the score is not below the threshold and `k > 0`
/// critical invariants are violated, the verdict is `CriticalInvariants(k)`.
pub proof fn law_only_critical_violations_block(
    score: u64,
    threshold: u64,
    v: Seq<(u128, Seq<char>, InvariantSeverity)>,
    override_count: nat,
)
    ensures
        (forall|i: int| 0 <= i < v.len() ==> (#[trigger] v[i]).2 != InvariantSeverity::Critical) ==> verdict_for(
            score,
            threshold,
            v,
            override_count,
        ) == verdict_for(score, threshold, Seq::empty(), override_count),
        !compares(Comparison::LessThan, score, threshold) && v.filter(is_critical_violation()).len() > 0
            && v.filter(is_critical_violation()).len() <= usize::MAX ==> verdict_for(score, threshold, v, override_count)
            == GuardrailVerdict::CriticalInvariants(v.filter(is_critical_violation()).len() as usize),
{
    law_critical_count_counts_critical(v);
    if forall|i: int| 0 <= i < v.len() ==> (#[trigger] v[i]).2 != InvariantSeverity::Critical {
        lemma_no_critical(v);
    }
}

/// With no critical entry the critical count is zero.
proof fn lemma_no_critical(v: Seq<(u128, Seq<char>, InvariantSeverity)>)
    requires
        forall|i: int| 0 <= i < v.len() ==> (#[trigger] v[i]).2 != InvariantSeverity::Critical,
    ensures
        v.filter(is_critical_violation()).len() == 0,
    decreases v.len(),
{
    reveal(Seq::filter);
    if v.len() > 0 {
        lemma_no_critical(v.drop_last());
        assert(v.last() == v[v.len() - 1]);
    }
}

/// Execution is allowed only when the score reaches the threshold, no
/// critical invariant is violated and at most ten overrides are on record;
/// a score below the threshold always blocks, whatever else holds.
pub proof fn law_allowed_only_when_all_clear(
    score: u64,
    threshold: u64,
    v: Seq<(u128, Seq<char>, InvariantSeverity)>,
    override_count: nat,
)
    ensures
        verdict_for(score, threshold, v, override_count) == GuardrailVerdict::Allowed ==> {
            &&& !compares(Comparison::LessThan, score, threshold)
            &&& forall|i: int| 0 <= i < v.len() ==> (#[trigger] v[i]).2 != InvariantSeverity::Critical
            &&& override_count <= 10
        },
        compares(Comparison::LessThan, score, threshold) ==> verdict_for(score, threshold, v, override_count)
            == GuardrailVerdict::BelowThreshold,
{
    law_critical_count_counts_critical(v);
    if verdict_for(score, threshold, v, override_count) == GuardrailVerdict::Allowed {
        assert forall|i: int| 0 <= i < v.len() implies (#[trigger] v[i]).2 != InvariantSeverity::Critical by {
            if v[i].2 == InvariantSeverity::Critical {
                lemma_critical_counted(v, i);
            }
        }
    }
}

/// A critical entry makes the critical count positive.
proof fn lemma_critical_counted(v: Seq<(u128, Seq<char>, InvariantSeverity)>, i: int)
    requires
        0 <= i < v.len(),
        v[i].2 == InvariantSeverity::Critical,
    ensures
        critical_count(v) > 0,
    decreases v.len(),
{
    if i < v.len() - 1 {
        lemma_critical_counted(v.drop_last(), i);
    }
}

} // verus!
