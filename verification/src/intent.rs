//! Vocabulary of intent preservation: constraints, their violations, and the
//! guardrail's actions.

use vstd::prelude::*;
use vstd::utf8::encode_utf8;
use crate::evidence::{hex_text, utf8_bytes};
use crate::manifold::{blake3_digest, new_uuid, now_millis};
use crate::strings::chars_of;
use crate::predicate::Comparison;
use crate::predicate_eval::{compare_bits, compares, f64_nan, f64_rank};
use crate::text::{lowercase, lowercase_contains, text_contains, uuid_string};

verus! {

/// Kind of constraint.
#[derive(Debug, Clone, Copy, PartialEq, Eq, Structural)]
pub enum ConstraintType {
    Technical,
    Security,
    Performance,
    Compliance,
    Domain,
}

/// How much a constraint matters.
#[derive(Debug, Clone, Copy, PartialEq, Eq, Structural)]
pub enum ConstraintSeverity {
    Critical,
    High,
    Medium,
    Low,
}

/// A constraint of the intent.
#[derive(Debug, Clone)]
pub struct Constraint {
    pub id: String,
    pub description: String,
    pub constraint_type: ConstraintType,
    pub severity: ConstraintSeverity,
}

/// How alignment with the intent moves.
#[derive(Debug, Clone, Copy, PartialEq, Eq, Structural)]
pub enum AlignmentTrend {
    Improving,
    Stable,
    Degrading,
    Critical,
}

/// A violated constraint.
#[derive(Debug, Clone)]
pub struct ConstraintViolation {
    pub constraint_id: String,
    pub constraint_description: String,
    pub severity: ConstraintSeverity,
    pub violation_details: String,
}

/// What the guardrail does about an action.
#[derive(Debug, Clone, Copy, PartialEq, Eq, Structural)]
pub enum GuardrailAction {
    Allow,
    Warn,
    Suggest,
    Block,
    Escalate,
}

/// Distils cognitive state into architecture.
pub struct CognitiveDistiller;


/// How a success criterion is checked; a threshold holds the bits of a
/// number.
#[derive(Debug, Clone)]
pub enum ValidationMethod {
    TestPass { test_name: String },
    MetricThreshold { metric: String, threshold: u64 },
    HumanReview { reviewer_role: String },
    AutomatedCheck { check_id: String },
}

/// A success criterion of the intent.
#[derive(Debug, Clone)]
pub struct SuccessCriterion {
    pub id: String,
    pub description: String,
    pub validation_method: ValidationMethod,
    pub is_mandatory: bool,
}

/// The immutable anchor of an intent: its text, an id, the hash that binds
/// them, when it was anchored (milliseconds since the Unix epoch), and the
/// constraints and success criteria read from the text.
#[derive(Debug, Clone)]
pub struct IntentAnchor {
    pub anchor_id: String,
    pub original_intent: String,
    pub integrity_hash: String,
    pub anchored_at: i64,
    pub constraints: Vec<Constraint>,
    pub success_criteria: Vec<SuccessCriterion>,
}

/// The BLAKE3 hash, in lowercase hexadecimal, of `first` followed by
/// `second` (`blake3::Hasher` updated with both, then `finalize` and
/// `to_hex`; the crate documents incremental hashing as hashing the
/// concatenation).
#[verifier::external_body]
fn blake3_hex_of_parts(first: &[u8], second: &[u8]) -> (r: String)
    ensures
        r@ == hex_text(blake3_digest(first@ + second@)),
{
    let mut hasher = blake3::Hasher::new();
    hasher.update(first);
    hasher.update(second);
    hasher.finalize().to_hex().to_string()
}

/// The hash that binds an intent to its anchor id.
pub open spec fn anchor_hash(intent: Seq<char>, anchor_id: Seq<char>) -> Seq<char> {
    hex_text(blake3_digest(encode_utf8(intent) + encode_utf8(anchor_id)))
}

/// The kinds of constraint the intent's lowercase text calls for, in order:
/// a named language (Rust or TypeScript), security (secure or
/// authentication), performance (fast or performance).
pub open spec fn constraint_kinds(low: Seq<char>) -> Seq<ConstraintType> {
    let a: Seq<ConstraintType> = if text_contains(low, "rust"@) || text_contains(low, "typescript"@) {
        seq![ConstraintType::Technical]
    } else {
        Seq::empty()
    };
    let b: Seq<ConstraintType> = if text_contains(low, "secure"@) || text_contains(low, "authentication"@) {
        seq![ConstraintType::Security]
    } else {
        Seq::empty()
    };
    let c: Seq<ConstraintType> = if text_contains(low, "fast"@) || text_contains(low, "performance"@) {
        seq![ConstraintType::Performance]
    } else {
        Seq::empty()
    };
    a + b + c
}

/// The constraint a kind stands for: its description and severity.
pub open spec fn constraint_for(c: Constraint, kind: ConstraintType) -> bool {
    &&& c.constraint_type == kind
    &&& kind == ConstraintType::Technical ==> c.description@ == "Use specified programming language"@
        && c.severity == ConstraintSeverity::Critical
    &&& kind == ConstraintType::Security ==> c.description@ == "Implement security best practices"@
        && c.severity == ConstraintSeverity::Critical
    &&& kind == ConstraintType::Performance ==> c.description@ == "Meet performance requirements"@
        && c.severity == ConstraintSeverity::High
}

/// A constraint of this kind with a fresh id.
fn new_constraint(kind: ConstraintType) -> (c: Constraint)
    requires
        kind == ConstraintType::Technical || kind == ConstraintType::Security || kind
            == ConstraintType::Performance,
    ensures
        constraint_for(c, kind),
{
    let id = uuid_string(new_uuid());
    match kind {
        ConstraintType::Technical => Constraint {
            id,
            description: "Use specified programming language".to_string(),
            constraint_type: kind,
            severity: ConstraintSeverity::Critical,
        },
        ConstraintType::Security => Constraint {
            id,
            description: "Implement security best practices".to_string(),
            constraint_type: kind,
            severity: ConstraintSeverity::Critical,
        },
        _ => Constraint {
            id,
            description: "Meet performance requirements".to_string(),
            constraint_type: kind,
            severity: ConstraintSeverity::High,
        },
    }
}

impl IntentAnchor {
    /// Anchor an intent: a fresh id, the hash binding the text to it, the
    /// constraints the text calls for, and the default success criterion.
    pub fn from_intent(intent: String) -> (a: IntentAnchor)
        ensures
            a.original_intent == intent,
            a.integrity_hash@ == anchor_hash(intent@, a.anchor_id@),
            a.constraints@.len() == constraint_kinds(lowercase(intent@)).len(),
            forall|i: int|
                0 <= i < a.constraints@.len() ==> constraint_for(
                    #[trigger] a.constraints@[i],
                    constraint_kinds(lowercase(intent@))[i],
                ),
            a.success_criteria@.len() == 1,
            a.success_criteria@[0].description@ == "Core functionality tests pass"@,
            a.success_criteria@[0].is_mandatory,
    {
        let anchor_id = uuid_string(new_uuid());
        let integrity_hash = blake3_hex_of_parts(
            utf8_bytes(intent.as_str()).as_slice(),
            utf8_bytes(anchor_id.as_str()).as_slice(),
        );
        let constraints = IntentAnchor::extract_constraints(&intent);
        let success_criteria = IntentAnchor::extract_success_criteria(&intent);
        IntentAnchor {
            anchor_id,
            original_intent: intent,
            integrity_hash,
            anchored_at: now_millis(),
            constraints,
            success_criteria,
        }
    }

    /// The constraints the intent calls for (see `constraint_kinds`).
    fn extract_constraints(intent: &String) -> (v: Vec<Constraint>)
        ensures
            v@.len() == constraint_kinds(lowercase(intent@)).len(),
            forall|i: int|
                0 <= i < v@.len() ==> constraint_for(#[trigger] v@[i], constraint_kinds(lowercase(intent@))[i]),
    {
        let mut v: Vec<Constraint> = Vec::new();
        let ghost low = lowercase(intent@);
        let tech = lowercase_contains(intent, "rust") || lowercase_contains(intent, "typescript");
        let sec = lowercase_contains(intent, "secure") || lowercase_contains(intent, "authentication");
        let perf = lowercase_contains(intent, "fast") || lowercase_contains(intent, "performance");
        if tech {
            v.push(new_constraint(ConstraintType::Technical));
        }
        if sec {
            v.push(new_constraint(ConstraintType::Security));
        }
        if perf {
            v.push(new_constraint(ConstraintType::Performance));
        }
        proof {
            let kinds = constraint_kinds(low);
            assert(kinds.len() == v@.len());
            assert forall|i: int| 0 <= i < v@.len() implies constraint_for(#[trigger] v@[i], kinds[i]) by {
                let a: Seq<ConstraintType> = if tech { seq![ConstraintType::Technical] } else { Seq::empty() };
                let b: Seq<ConstraintType> = if sec { seq![ConstraintType::Security] } else { Seq::empty() };
                let c: Seq<ConstraintType> = if perf { seq![ConstraintType::Performance] } else { Seq::empty() };
                assert(kinds =~= a + b + c);
            }
        }
        v
    }

    /// The default success criterion: core functionality tests pass.
    fn extract_success_criteria(intent: &String) -> (v: Vec<SuccessCriterion>)
        ensures
            v@.len() == 1,
            v@[0].description@ == "Core functionality tests pass"@,
            v@[0].is_mandatory,
            v@[0].validation_method matches ValidationMethod::TestPass { test_name } && test_name@
                == "core_functionality"@,
    {
        let mut v: Vec<SuccessCriterion> = Vec::new();
        v.push(
            SuccessCriterion {
                id: uuid_string(new_uuid()),
                description: "Core functionality tests pass".to_string(),
                validation_method: ValidationMethod::TestPass { test_name: "core_functionality".to_string() },
                is_mandatory: true,
            },
        );
        v
    }

    /// Whether the hash still binds the intent's text to the anchor id.
    pub fn verify_integrity(&self) -> (b: bool)
        ensures
            b == (self.integrity_hash@ == anchor_hash(self.original_intent@, self.anchor_id@)),
    {
        let computed = blake3_hex_of_parts(
            utf8_bytes(self.original_intent.as_str()).as_slice(),
            utf8_bytes(self.anchor_id.as_str()).as_slice(),
        );
        computed == self.integrity_hash
    }
}

/// What a security constraint says of an action whose lowercase text is
/// `low`: hard-coded passwords and disabled verification violate it.
pub open spec fn security_violation(low: Seq<char>) -> Option<Seq<char>> {
    if text_contains(low, "hardcoded"@) && text_contains(low, "password"@) {
        Some("Hardcoded passwords violate security requirements"@)
    } else if text_contains(low, "disable"@) && text_contains(low, "verification"@) {
        Some("Disabling verification compromises security"@)
    } else {
        None
    }
}

/// How the action violates the constraint, if it does: only security
/// constraints are checked (see `security_violation`).
pub fn check_constraint_violation(action: &String, constraint: &Constraint) -> (r: Option<String>)
    ensures
        constraint.constraint_type != ConstraintType::Security ==> r is None,
        constraint.constraint_type == ConstraintType::Security ==> match r {
            Some(s) => security_violation(lowercase(action@)) == Some(s@),
            None => security_violation(lowercase(action@)) is None,
        },
{
    if constraint.constraint_type == ConstraintType::Security {
        if lowercase_contains(action, "hardcoded") && lowercase_contains(action, "password") {
            return Some("Hardcoded passwords violate security requirements".to_string());
        }
        if lowercase_contains(action, "disable") && lowercase_contains(action, "verification") {
            return Some("Disabling verification compromises security".to_string());
        }
    }
    None
}

/// Whether the action breaks a technical constraint: a constraint that
/// names Rust is broken by an action that mentions Python.
pub fn violates_technical_constraint(action: &String, constraint: &Constraint) -> (b: bool)
    ensures
        b == (text_contains(constraint.description@, "Rust"@) && text_contains(lowercase(action@), "python"@)),
{
    crate::text::contains_chars(&chars_of(constraint.description.as_str()), &chars_of("Rust"))
        && lowercase_contains(action, "python")
}

/// The action and the goal both mention one implementation term
/// (implement, create, build, develop, add), each in lowercase.
pub open spec fn directly_related(action: Seq<char>, goal: Seq<char>) -> bool {
    ||| text_contains(lowercase(action), "implement"@) && text_contains(lowercase(goal), "implement"@)
    ||| text_contains(lowercase(action), "create"@) && text_contains(lowercase(goal), "create"@)
    ||| text_contains(lowercase(action), "build"@) && text_contains(lowercase(goal), "build"@)
    ||| text_contains(lowercase(action), "develop"@) && text_contains(lowercase(goal), "develop"@)
    ||| text_contains(lowercase(action), "add"@) && text_contains(lowercase(goal), "add"@)
}

/// Whether the action and the goal's description share an implementation
/// term (see `directly_related`).
pub fn is_directly_related(action: &String, goal_description: &String) -> (b: bool)
    ensures
        b == directly_related(action@, goal_description@),
{
    (lowercase_contains(action, "implement") && lowercase_contains(goal_description, "implement"))
        || (lowercase_contains(action, "create") && lowercase_contains(goal_description, "create"))
        || (lowercase_contains(action, "build") && lowercase_contains(goal_description, "build"))
        || (lowercase_contains(action, "develop") && lowercase_contains(goal_description, "develop"))
        || (lowercase_contains(action, "add") && lowercase_contains(goal_description, "add"))
}

/// Thresholds of drift detection. Scores are on a 0-100 scale; the
/// thresholds and the path deviation hold the bits of floating-point numbers.
#[derive(Debug, Clone, Copy)]
pub struct DriftConfig {
    /// Score below which actions are blocked
    pub block_threshold: u64,
    /// Score below which warnings are issued
    pub warn_threshold: u64,
    /// Number of consecutive low scores before escalating
    pub consecutive_violations_before_escalation: usize,
    /// Largest deviation from the optimal path allowed
    pub max_path_deviation: u64,
}

/// The bits of 50.0.
pub const FIFTY: u64 = 0x4049_0000_0000_0000u64;
/// The bits of 60.0.
pub const SIXTY: u64 = 0x404E_0000_0000_0000u64;
/// The bits of 80.0.
pub const EIGHTY: u64 = 0x4054_0000_0000_0000u64;
/// The bits of 90.0.
pub const NINETY: u64 = 0x4056_8000_0000_0000u64;
/// The bits of 0.3.
pub const THREE_TENTHS: u64 = 0x3FD3_3333_3333_3333u64;

impl Default for DriftConfig {
    /// Block below 50, warn below 80, escalate after 3 low scores, allow a
    /// path deviation of 0.3.
    fn default() -> (c: DriftConfig)
        ensures
            c.block_threshold == FIFTY,
            c.warn_threshold == EIGHTY,
            c.consecutive_violations_before_escalation == 3,
            c.max_path_deviation == THREE_TENTHS,
    {
        DriftConfig {
            block_threshold: FIFTY,
            warn_threshold: EIGHTY,
            consecutive_violations_before_escalation: 3,
            max_path_deviation: THREE_TENTHS,
        }
    }
}

/// Some violation is critical.
pub open spec fn has_critical(v: Seq<ConstraintViolation>) -> bool {
    exists|i: int| 0 <= i < v.len() && (#[trigger] v[i]).severity == ConstraintSeverity::Critical
}

/// What the guardrail does about an action scored `score` (0-100), with
/// these violations, this trend and this deviation from the optimal path:
/// block on a critical violation or below the block threshold; escalate a
/// critical trend below 60; warn below the warn threshold or beyond the
/// allowed deviation; suggest below 90 or with any violation; else allow.
pub open spec fn action_for(
    c: DriftConfig,
    score: u64,
    v: Seq<ConstraintViolation>,
    trend: AlignmentTrend,
    deviation: u64,
) -> GuardrailAction {
    if has_critical(v) || compares(Comparison::LessThan, score, c.block_threshold) {
        GuardrailAction::Block
    } else if trend == AlignmentTrend::Critical && compares(Comparison::LessThan, score, SIXTY) {
        GuardrailAction::Escalate
    } else if compares(Comparison::LessThan, score, c.warn_threshold) || compares(
        Comparison::GreaterThan,
        deviation,
        c.max_path_deviation,
    ) {
        GuardrailAction::Warn
    } else if compares(Comparison::LessThan, score, NINETY) || v.len() > 0 {
        GuardrailAction::Suggest
    } else {
        GuardrailAction::Allow
    }
}

impl DriftConfig {
    /// What the guardrail does about an action (see `action_for`).
    pub fn determine_action(
        &self,
        score: u64,
        violations: &Vec<ConstraintViolation>,
        trend: AlignmentTrend,
        path_deviation: u64,
    ) -> (a: GuardrailAction)
        ensures
            a == action_for(*self, score, violations@, trend, path_deviation),
    {
        let mut critical = false;
        let mut i: usize = 0;
        while i < violations.len()
            invariant
                i <= violations@.len(),
                critical == exists|j: int| 0 <= j < i && (#[trigger] violations@[j]).severity == ConstraintSeverity::Critical,
            decreases violations.len() - i,
        {
            if violations[i].severity == ConstraintSeverity::Critical {
                critical = true;
            }
            i = i + 1;
        }
        if critical || compare_bits(Comparison::LessThan, score, self.block_threshold) {
            return GuardrailAction::Block;
        }
        if trend == AlignmentTrend::Critical && compare_bits(Comparison::LessThan, score, SIXTY) {
            return GuardrailAction::Escalate;
        }
        if compare_bits(Comparison::LessThan, score, self.warn_threshold) || compare_bits(
            Comparison::GreaterThan,
            path_deviation,
            self.max_path_deviation,
        ) {
            return GuardrailAction::Warn;
        }
        if compare_bits(Comparison::LessThan, score, NINETY) || violations.len() > 0 {
            return GuardrailAction::Suggest;
        }
        GuardrailAction::Allow
    }
}

/// A violation as plain values.
pub open spec fn violation_parts(v: ConstraintViolation) -> (Seq<char>, Seq<char>, ConstraintSeverity, Seq<char>) {
    (v.constraint_id@, v.constraint_description@, v.severity, v.violation_details@)
}

/// The violations of the first `n` constraints by the action, in order: a
/// security constraint is violated when `security_violation` finds a reason.
pub open spec fn constraint_violations_upto(
    cs: Seq<Constraint>,
    low_action: Seq<char>,
    n: int,
) -> Seq<(Seq<char>, Seq<char>, ConstraintSeverity, Seq<char>)>
    decreases n,
{
    if n <= 0 {
        Seq::empty()
    } else {
        let prev = constraint_violations_upto(cs, low_action, n - 1);
        let c = cs[n - 1];
        if c.constraint_type == ConstraintType::Security && security_violation(low_action) is Some {
            prev.push((c.id@, c.description@, c.severity, security_violation(low_action)->0))
        } else {
            prev
        }
    }
}

/// The violation reported for an action outside the defined scope.
pub open spec fn scope_violation() -> (Seq<char>, Seq<char>, ConstraintSeverity, Seq<char>) {
    (
        "scope"@,
        "Stay within defined scope"@,
        ConstraintSeverity::High,
        "Action appears to be outside defined scope"@,
    )
}

impl IntentAnchor {
    /// The violations of the anchor's constraints by the action, in order,
    /// then a scope violation when the action was found to be scope creep.
    pub fn detect_violations(&self, action: &String, scope_creep: bool) -> (r: Vec<ConstraintViolation>)
        ensures
            r@.map_values(|v: ConstraintViolation| violation_parts(v)) == (if scope_creep {
                constraint_violations_upto(self.constraints@, lowercase(action@), self.constraints@.len() as int).push(
                    scope_violation(),
                )
            } else {
                constraint_violations_upto(self.constraints@, lowercase(action@), self.constraints@.len() as int)
            }),
    {
        let mut out: Vec<ConstraintViolation> = Vec::new();
        let mut i: usize = 0;
        while i < self.constraints.len()
            invariant
                i <= self.constraints@.len(),
                out@.map_values(|v: ConstraintViolation| violation_parts(v)) == constraint_violations_upto(
                    self.constraints@,
                    lowercase(action@),
                    i as int,
                ),
            decreases self.constraints.len() - i,
        {
            let c = &self.constraints[i];
            let ghost prev = out@;
            match check_constraint_violation(action, c) {
                Some(details) => {
                    out.push(
                        ConstraintViolation {
                            constraint_id: c.id.clone(),
                            constraint_description: c.description.clone(),
                            severity: c.severity,
                            violation_details: details,
                        },
                    );
                    proof {
                        assert(out@ == prev.push(out@.last()));
                    }
                },
                None => {},
            }
            proof {
                assert(out@.map_values(|v: ConstraintViolation| violation_parts(v)) =~= constraint_violations_upto(
                    self.constraints@,
                    lowercase(action@),
                    i + 1,
                ));
            }
            i = i + 1;
        }
        if scope_creep {
            let ghost prev = out@;
            out.push(
                ConstraintViolation {
                    constraint_id: "scope".to_owned(),
                    constraint_description: "Stay within defined scope".to_owned(),
                    severity: ConstraintSeverity::High,
                    violation_details: "Action appears to be outside defined scope".to_owned(),
                },
            );
            proof {
                assert(out@ == prev.push(out@.last()));
                assert(out@.map_values(|v: ConstraintViolation| violation_parts(v)) =~= prev.map_values(
                    |v: ConstraintViolation| violation_parts(v),
                ).push(scope_violation()));
            }
        }
        out
    }
}

/// Escalation is kept for a critical trend at a score below 60: an
/// escalated action was not blocked, its trend is critical and its score
/// (a number, not NaN) is below 60. A critical trend at a score of 60 or
/// more, when nothing blocks, is warned about, suggested on or allowed by
/// the warn threshold, the path deviation and the mark of 90 alone.
pub proof fn law_escalation_needs_critical_trend_below_sixty(
    c: DriftConfig,
    score: u64,
    v: Seq<ConstraintViolation>,
    trend: AlignmentTrend,
    deviation: u64,
)
    ensures
        action_for(c, score, v, trend, deviation) == GuardrailAction::Escalate ==> {
            &&& trend == AlignmentTrend::Critical
            &&& !f64_nan(score)
            &&& f64_rank(score) < f64_rank(0x404E_0000_0000_0000u64)
            &&& forall|i: int| 0 <= i < v.len() ==> (#[trigger] v[i]).severity != ConstraintSeverity::Critical
        },
        !f64_nan(score) && f64_rank(score) >= f64_rank(0x404E_0000_0000_0000u64) && action_for(
            c,
            score,
            v,
            trend,
            deviation,
        ) != GuardrailAction::Block ==> action_for(c, score, v, trend, deviation) == action_for(
            c,
            score,
            v,
            AlignmentTrend::Stable,
            deviation,
        ),
{
}

/// A critical violation, or a score below the block threshold, blocks; and
/// only they do. An allowed action has no violation at all and stays within
/// the allowed path deviation; when its score is a number (not NaN), it is
/// at least 90 and at least the warn threshold.
pub proof fn law_block_and_allow(
    c: DriftConfig,
    score: u64,
    v: Seq<ConstraintViolation>,
    trend: AlignmentTrend,
    deviation: u64,
)
    ensures
        (action_for(c, score, v, trend, deviation) == GuardrailAction::Block) <==> ((exists|i: int|
            0 <= i < v.len() && (#[trigger] v[i]).severity == ConstraintSeverity::Critical) || (!f64_nan(
            score,
        ) && !f64_nan(c.block_threshold) && f64_rank(score) < f64_rank(c.block_threshold))),
        action_for(c, score, v, trend, deviation) == GuardrailAction::Allow ==> {
            &&& v.len() == 0
            &&& !(!f64_nan(deviation) && !f64_nan(c.max_path_deviation) && f64_rank(deviation) > f64_rank(
                c.max_path_deviation,
            ))
            &&& !f64_nan(score) ==> f64_rank(score) >= f64_rank(0x4056_8000_0000_0000u64)
            &&& !f64_nan(score) && !f64_nan(c.warn_threshold) ==> f64_rank(score) >= f64_rank(c.warn_threshold)
        },
{
}

} // verus!
