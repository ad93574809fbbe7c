//! Consensus-based validation: which expertise a proposal needs, how votes
//! of validator agents are tallied, where they disagree, and what is decided.
//!
//! The approval threshold is held in basis points (8000 is 80%); validator
//! ids are their text; confidences hold the bits of a fraction.

use vstd::prelude::*;
use crate::strings::chars_of;
use crate::text::string_from_chars;

verus! {

/// Kind of proposal.
#[derive(Debug, Clone, Copy, PartialEq, Eq, Structural)]
pub enum ProposalType {
    CodeChange,
    ArchitectureDecision,
    SecurityConfiguration,
    DependencyAddition,
    GoalModification,
    InvariantRelaxation,
}

/// What a proposal changes.
#[derive(Debug)]
pub enum ProposalContent {
    CodeSnippet { language: String, code: String, path: String },
    ArchitectureChange { component: String, change_description: String },
    SecurityConfig { config_key: String, config_value: String },
    Dependency { name: String, version: String, reason: String },
    GoalUpdate { goal_id: String, new_description: String },
}

/// A proposal to be validated by consensus; the proposer is a validator
/// id, `proposed_at` milliseconds since the Unix epoch.
pub struct ValidationProposal {
    pub proposal_id: String,
    pub proposal_type: ProposalType,
    pub description: String,
    pub content: ProposalContent,
    pub proposer: String,
    pub proposed_at: i64,
    pub priority: ValidationPriority,
}

/// How urgently a proposal must be validated.
#[derive(Debug, Clone, Copy, PartialEq, Eq, Structural)]
pub enum ValidationPriority {
    Critical,
    High,
    Medium,
    Low,
}

/// Dimension of validation.
#[derive(Debug, Clone, Copy, PartialEq, Eq, Structural)]
pub enum ValidationDimension {
    ArchitecturalAlignment,
    SecurityPosture,
    LogicCorrectness,
    PerformanceImpact,
    IntentPreservation,
    Testability,
    Maintainability,
}

/// A validator's vote.
#[derive(Debug, Clone, Copy, PartialEq, Eq, Structural)]
pub enum Vote {
    Approve,
    Reject,
    RequestChanges,
    Abstain,
}

/// A vote on a proposal; `timestamp` is milliseconds since the Unix epoch.
pub struct ValidationVote {
    pub proposal_id: String,
    pub validator_id: String,
    pub vote: Vote,
    pub confidence: u64,
    pub reasoning: String,
    pub dimension: ValidationDimension,
    pub checks_performed: Vec<String>,
    pub timestamp: i64,
}

/// Where consensus stands.
#[derive(Debug, Clone, Copy, PartialEq, Eq, Structural)]
pub enum ConsensusStatus {
    Approved,
    Rejected,
    Pending,
    Disputed,
    Escalated,
}

/// How serious a disagreement is.
#[derive(Debug, Clone, Copy, PartialEq, Eq, Structural)]
pub enum DisputeSeverity {
    Minor,
    Major,
    Critical,
}

/// A disagreement between two validators of one dimension.
pub struct Dispute {
    pub dimension: ValidationDimension,
    pub validator_a: String,
    pub validator_b: String,
    pub disagreement: String,
    pub severity: DisputeSeverity,
}

/// The decision reached.
#[derive(Debug, Clone, Copy, PartialEq, Eq, Structural)]
pub enum Decision {
    Approve,
    ApproveWithConditions,
    Reject,
    RequestRevision,
    EscalateToHuman,
}

/// What must happen before the decision takes effect.
#[derive(Debug, Clone, Copy, PartialEq, Eq, Structural)]
pub enum RequiredAction {
    NoAction,
    AddTests,
    SecurityReview,
    PerformanceBenchmark,
    DocumentationUpdate,
    ArchitectureReview,
}

/// The final decision with its required action and conditions.
pub struct FinalDecision {
    pub decision: Decision,
    pub required_action: RequiredAction,
    pub conditions: Vec<String>,
}

/// Configuration of consensus validation.
pub struct ConsensusConfig {
    /// Approval needed, in basis points
    pub approval_threshold_bp: u32,
    /// Votes needed before a proposal can be rejected
    pub min_validators: usize,
    /// Time to wait for votes
    pub timeout_seconds: u64,
    /// Whether every dimension must pass
    pub require_all_dimensions: bool,
    /// Minimum confidence of a vote (bits of a fraction)
    pub min_confidence_threshold: u64,
}

impl ConsensusConfig {
    /// The default: 80% approval, three validators, 60 seconds, confidence 0.7.
    pub fn standard() -> (c: ConsensusConfig)
        ensures
            c.approval_threshold_bp == 8000,
            c.min_validators == 3,
            c.timeout_seconds == 60,
            !c.require_all_dimensions,
            c.min_confidence_threshold == 0x3fe6_6666_6666_6666u64,
    {
        ConsensusConfig {
            approval_threshold_bp: 8000,
            min_validators: 3,
            timeout_seconds: 60,
            require_all_dimensions: false,
            min_confidence_threshold: 0x3fe6_6666_6666_6666u64,
        }
    }
}

/// The dimensions a proposal type must be validated on.
pub open spec fn required_dimensions(t: ProposalType) -> Seq<ValidationDimension> {
    match t {
        ProposalType::CodeChange => seq![
            ValidationDimension::LogicCorrectness,
            ValidationDimension::Testability,
            ValidationDimension::Maintainability,
        ],
        ProposalType::ArchitectureDecision => seq![
            ValidationDimension::ArchitecturalAlignment,
            ValidationDimension::PerformanceImpact,
            ValidationDimension::Maintainability,
        ],
        ProposalType::SecurityConfiguration => seq![
            ValidationDimension::SecurityPosture,
            ValidationDimension::LogicCorrectness,
        ],
        ProposalType::DependencyAddition => seq![
            ValidationDimension::SecurityPosture,
            ValidationDimension::PerformanceImpact,
            ValidationDimension::ArchitecturalAlignment,
        ],
        ProposalType::GoalModification => seq![
            ValidationDimension::IntentPreservation,
            ValidationDimension::ArchitecturalAlignment,
        ],
        ProposalType::InvariantRelaxation => seq![
            ValidationDimension::SecurityPosture,
            ValidationDimension::LogicCorrectness,
            ValidationDimension::IntentPreservation,
        ],
    }
}

/// The dimensions a proposal type must be validated on.
pub fn get_required_dimensions(proposal_type: ProposalType) -> (r: Vec<ValidationDimension>)
    ensures
        r@ == required_dimensions(proposal_type),
{
    let r = match proposal_type {
        ProposalType::CodeChange => vec![
            ValidationDimension::LogicCorrectness,
            ValidationDimension::Testability,
            ValidationDimension::Maintainability,
        ],
        ProposalType::ArchitectureDecision => vec![
            ValidationDimension::ArchitecturalAlignment,
            ValidationDimension::PerformanceImpact,
            ValidationDimension::Maintainability,
        ],
        ProposalType::SecurityConfiguration => vec![
            ValidationDimension::SecurityPosture,
            ValidationDimension::LogicCorrectness,
        ],
        ProposalType::DependencyAddition => vec![
            ValidationDimension::SecurityPosture,
            ValidationDimension::PerformanceImpact,
            ValidationDimension::ArchitecturalAlignment,
        ],
        ProposalType::GoalModification => vec![
            ValidationDimension::IntentPreservation,
            ValidationDimension::ArchitecturalAlignment,
        ],
        ProposalType::InvariantRelaxation => vec![
            ValidationDimension::SecurityPosture,
            ValidationDimension::LogicCorrectness,
            ValidationDimension::IntentPreservation,
        ],
    };
    assert(r@ =~= required_dimensions(proposal_type));
    r
}

/// All dimensions, in declaration order.
pub open spec fn all_dimensions() -> Seq<ValidationDimension> {
    seq![
        ValidationDimension::ArchitecturalAlignment,
        ValidationDimension::SecurityPosture,
        ValidationDimension::LogicCorrectness,
        ValidationDimension::PerformanceImpact,
        ValidationDimension::IntentPreservation,
        ValidationDimension::Testability,
        ValidationDimension::Maintainability,
    ]
}

/// Position of a dimension in `all_dimensions`.
pub open spec fn dimension_index(d: ValidationDimension) -> int {
    match d {
        ValidationDimension::ArchitecturalAlignment => 0,
        ValidationDimension::SecurityPosture => 1,
        ValidationDimension::LogicCorrectness => 2,
        ValidationDimension::PerformanceImpact => 3,
        ValidationDimension::IntentPreservation => 4,
        ValidationDimension::Testability => 5,
        ValidationDimension::Maintainability => 6,
    }
}

/// Number of votes of kind `k` on dimension `d`.
pub open spec fn count_votes(votes: Seq<ValidationVote>, d: ValidationDimension, k: Vote) -> nat
    decreases votes.len(),
{
    if votes.len() == 0 {
        0
    } else {
        count_votes(votes.drop_last(), d, k) + if votes.last().dimension == d && votes.last().vote == k {
            1nat
        } else {
            0nat
        }
    }
}

/// Number of votes on dimension `d`.
pub open spec fn count_dimension(votes: Seq<ValidationVote>, d: ValidationDimension) -> nat
    decreases votes.len(),
{
    if votes.len() == 0 {
        0
    } else {
        count_dimension(votes.drop_last(), d) + if votes.last().dimension == d {
            1nat
        } else {
            0nat
        }
    }
}

/// The votes on the first `k` dimensions of `all_dimensions`.
pub open spec fn dims_total(votes: Seq<ValidationVote>, k: int) -> nat
    decreases k,
{
    if k <= 0 {
        0
    } else {
        dims_total(votes, k - 1) + count_dimension(votes, all_dimensions()[k - 1])
    }
}

/// Every vote is on exactly one dimension, so the votes on all dimensions
/// are all the votes.
proof fn lemma_dims_total(votes: Seq<ValidationVote>)
    ensures
        dims_total(votes, 7) == votes.len(),
    decreases votes.len(),
{
    reveal_with_fuel(dims_total, 8);
    if votes.len() > 0 {
        lemma_dims_total(votes.drop_last());
        let d = votes.last().dimension;
        assert(dims_total(votes, 7) == dims_total(votes.drop_last(), 7) + 1) by {
            reveal_with_fuel(dims_total, 8);
            match d {
                ValidationDimension::ArchitecturalAlignment => {},
                ValidationDimension::SecurityPosture => {},
                ValidationDimension::LogicCorrectness => {},
                ValidationDimension::PerformanceImpact => {},
                ValidationDimension::IntentPreservation => {},
                ValidationDimension::Testability => {},
                ValidationDimension::Maintainability => {},
            }
        }
    }
}

/// Sum of the vote counts of dimension results.
pub open spec fn sum_vote_counts(rs: Seq<DimensionResult>) -> nat
    decreases rs.len(),
{
    if rs.len() == 0 {
        0
    } else {
        sum_vote_counts(rs.drop_last()) + rs.last().vote_count as nat
    }
}

/// Number of approvals over all dimensions.
pub open spec fn count_approvals(votes: Seq<ValidationVote>) -> nat
    decreases votes.len(),
{
    if votes.len() == 0 {
        0
    } else {
        count_approvals(votes.drop_last()) + if votes.last().vote == Vote::Approve {
            1nat
        } else {
            0nat
        }
    }
}

/// Position of the first vote of kind `k` on dimension `d` (-1 if none).
pub open spec fn first_vote(votes: Seq<ValidationVote>, d: ValidationDimension, k: Vote) -> int
    decreases votes.len(),
{
    if votes.len() == 0 {
        -1
    } else {
        let f = first_vote(votes.drop_last(), d, k);
        if f >= 0 {
            f
        } else if votes.last().dimension == d && votes.last().vote == k {
            votes.len() - 1
        } else {
            -1
        }
    }
}

/// The dimension has both approvals and rejections.
pub open spec fn disputed(votes: Seq<ValidationVote>, d: ValidationDimension) -> bool {
    count_votes(votes, d, Vote::Approve) > 0 && count_votes(votes, d, Vote::Reject) > 0
}

/// Severity of a disagreement with `a` approvals and `r` rejections among
/// `n` votes: as many approvals as rejections is critical; more than 30%
/// each is major; anything else minor.
pub open spec fn dispute_severity(a: nat, r: nat, n: nat) -> DisputeSeverity {
    if a == r {
        DisputeSeverity::Critical
    } else if 10 * a > 3 * n && 10 * r > 3 * n {
        DisputeSeverity::Major
    } else {
        DisputeSeverity::Minor
    }
}

#[verifier::opaque]
/// `x` is the dispute the votes call for on dimension `d`: between the first
/// approver and the first rejecter, of the severity their counts give.
pub open spec fn dispute_for(votes: Seq<ValidationVote>, d: ValidationDimension, x: Dispute) -> bool {
    let a = votes[first_vote(votes, d, Vote::Approve)].validator_id;
    let b = votes[first_vote(votes, d, Vote::Reject)].validator_id;
    &&& x.dimension == d
    &&& x.validator_a == a
    &&& x.validator_b == b
    &&& x.disagreement@ == a@ + " approves but "@ + b@ + " rejects"@
    &&& x.severity == dispute_severity(
        count_votes(votes, d, Vote::Approve),
        count_votes(votes, d, Vote::Reject),
        count_dimension(votes, d),
    )
}

/// Every dimension is among `all_dimensions`.
pub proof fn lemma_all_dimensions(d: ValidationDimension)
    ensures
        all_dimensions().contains(d),
{
    let a = all_dimensions();
    match d {
        ValidationDimension::ArchitecturalAlignment => assert(a[0] == d),
        ValidationDimension::SecurityPosture => assert(a[1] == d),
        ValidationDimension::LogicCorrectness => assert(a[2] == d),
        ValidationDimension::PerformanceImpact => assert(a[3] == d),
        ValidationDimension::IntentPreservation => assert(a[4] == d),
        ValidationDimension::Testability => assert(a[5] == d),
        ValidationDimension::Maintainability => assert(a[6] == d),
    }
}

/// All dimensions, in declaration order.
fn dimension_order() -> (r: Vec<ValidationDimension>)
    ensures
        r@ == all_dimensions(),
{
    let r = vec![
        ValidationDimension::ArchitecturalAlignment,
        ValidationDimension::SecurityPosture,
        ValidationDimension::LogicCorrectness,
        ValidationDimension::PerformanceImpact,
        ValidationDimension::IntentPreservation,
        ValidationDimension::Testability,
        ValidationDimension::Maintainability,
    ];
    assert(r@ =~= all_dimensions());
    r
}

/// The tally of one dimension.
struct Tally {
    approvals: usize,
    rejections: usize,
    total: usize,
    first_approval: usize,
    first_rejection: usize,
}

/// Count the votes of dimension `d` and find its first approval and rejection.
fn tally(votes: &Vec<ValidationVote>, d: ValidationDimension) -> (t: Tally)
    ensures
        t.approvals == count_votes(votes@, d, Vote::Approve),
        t.rejections == count_votes(votes@, d, Vote::Reject),
        t.total == count_dimension(votes@, d),
        t.approvals > 0 ==> t.first_approval == first_vote(votes@, d, Vote::Approve),
        t.rejections > 0 ==> t.first_rejection == first_vote(votes@, d, Vote::Reject),
        t.approvals > 0 ==> 0 <= first_vote(votes@, d, Vote::Approve) < votes@.len(),
        t.rejections > 0 ==> 0 <= first_vote(votes@, d, Vote::Reject) < votes@.len(),
{
    let mut t = Tally { approvals: 0, rejections: 0, total: 0, first_approval: 0, first_rejection: 0 };
    let mut i: usize = 0;
    while i < votes.len()
        invariant
            i <= votes@.len(),
            t.approvals == count_votes(votes@.take(i as int), d, Vote::Approve),
            t.rejections == count_votes(votes@.take(i as int), d, Vote::Reject),
            t.total == count_dimension(votes@.take(i as int), d),
            t.approvals <= i && t.rejections <= i && t.total <= i,
            t.approvals > 0 <==> first_vote(votes@.take(i as int), d, Vote::Approve) >= 0,
            t.rejections > 0 <==> first_vote(votes@.take(i as int), d, Vote::Reject) >= 0,
            t.approvals > 0 ==> t.first_approval == first_vote(votes@.take(i as int), d, Vote::Approve)
                && t.first_approval < i,
            t.rejections > 0 ==> t.first_rejection == first_vote(votes@.take(i as int), d, Vote::Reject)
                && t.first_rejection < i,
            first_vote(votes@.take(i as int), d, Vote::Approve) >= -1,
            first_vote(votes@.take(i as int), d, Vote::Reject) >= -1,
        decreases votes.len() - i,
    {
        proof {
            assert(votes@.take(i as int + 1).drop_last() =~= votes@.take(i as int));
            assert(votes@.take(i as int + 1).last() == votes@[i as int]);
        }
        if votes[i].dimension == d {
            t.total = t.total + 1;
            if votes[i].vote == Vote::Approve {
                if t.approvals == 0 {
                    t.first_approval = i;
                }
                t.approvals = t.approvals + 1;
            } else if votes[i].vote == Vote::Reject {
                if t.rejections == 0 {
                    t.first_rejection = i;
                }
                t.rejections = t.rejections + 1;
            }
        }
        i = i + 1;
    }
    proof {
        assert(votes@.take(votes@.len() as int) == votes@);
    }
    t
}

/// Append the characters of `s`.
fn append_text(v: &mut Vec<char>, s: &str)
    ensures
        final(v)@ == old(v)@ + s@,
{
    let w = chars_of(s);
    let mut i: usize = 0;
    while i < w.len()
        invariant
            i <= w@.len(),
            v@ == old(v)@ + w@.take(i as int),
        decreases w.len() - i,
    {
        v.push(w[i]);
        proof {
            assert(w@.take(i as int + 1) == w@.take(i as int).push(w@[i as int]));
        }
        i = i + 1;
    }
    proof {
        assert(w@.take(w@.len() as int) == w@);
    }
}

/// The text "`a` approves but `b` rejects".
fn disagreement_text(a: &String, b: &String) -> (r: String)
    ensures
        r@ == a@ + " approves but "@ + b@ + " rejects"@,
{
    let mut v: Vec<char> = Vec::new();
    append_text(&mut v, a.as_str());
    append_text(&mut v, " approves but ");
    append_text(&mut v, b.as_str());
    append_text(&mut v, " rejects");
    proof {
        assert(v@ =~= a@ + " approves but "@ + b@ + " rejects"@);
    }
    string_from_chars(&v)
}

/// The dispute on dimension `d`, if its votes hold both approvals and
/// rejections.
fn dispute_of(votes: &Vec<ValidationVote>, d: ValidationDimension) -> (r: Option<Dispute>)
    ensures
        r is Some <==> disputed(votes@, d),
        r matches Some(x) ==> x.dimension == d && dispute_for(votes@, d, x),
{
    let t = tally(votes, d);
    if t.approvals > 0 && t.rejections > 0 {
        let a = &votes[t.first_approval];
        let b = &votes[t.first_rejection];
        let severity = if t.approvals == t.rejections {
            DisputeSeverity::Critical
        } else if (t.approvals as u128) * 10 > (t.total as u128) * 3 && (t.rejections as u128) * 10
            > (t.total as u128) * 3 {
            DisputeSeverity::Major
        } else {
            DisputeSeverity::Minor
        };
        let text = disagreement_text(&a.validator_id, &b.validator_id);
        proof {
            reveal(dispute_for);
        }
        Some(
            Dispute {
                dimension: d,
                validator_a: a.validator_id.clone(),
                validator_b: b.validator_id.clone(),
                disagreement: text,
                severity,
            },
        )
    } else {
        None
    }
}

/// Distinct positions of `all_dimensions` hold distinct dimensions.
proof fn lemma_dimensions_distinct(i: int, j: int)
    requires
        0 <= i < j < 7,
    ensures
        all_dimensions()[i] != all_dimensions()[j],
{
}

/// Find the dimensions on which validators disagree: one dispute for each
/// dimension with both approvals and rejections (see `dispute_for`), and
/// none for any other. The order of the disputes is that of the dimensions.
pub fn detect_disputes(votes: &Vec<ValidationVote>) -> (r: Vec<Dispute>)
    ensures
        forall|i: int|
            0 <= i < r@.len() ==> disputed(votes@, (#[trigger] r@[i]).dimension) && dispute_for(
                votes@,
                r@[i].dimension,
                r@[i],
            ),
        forall|d: ValidationDimension|
            #[trigger] disputed(votes@, d) ==> exists|i: int| 0 <= i < r@.len() && r@[i].dimension == d,
        forall|i: int, j: int|
            0 <= i < j < r@.len() ==> (#[trigger] r@[i]).dimension != (#[trigger] r@[j]).dimension,
{
    let dims = dimension_order();
    let mut r: Vec<Dispute> = Vec::new();
    let ghost mut idx: Seq<int> = Seq::empty();
    let mut k: usize = 0;
    while k < dims.len()
        invariant
            dims@ == all_dimensions(),
            k <= dims@.len(),
            idx.len() == r@.len(),
            forall|i: int|
                0 <= i < r@.len() ==> 0 <= #[trigger] idx[i] < k && r@[i].dimension == dims@[idx[i]],
            forall|i: int|
                0 <= i < r@.len() ==> disputed(votes@, (#[trigger] r@[i]).dimension) && dispute_for(
                    votes@,
                    r@[i].dimension,
                    r@[i],
                ),
            forall|i: int, j: int| 0 <= i < j < r@.len() ==> #[trigger] idx[i] < #[trigger] idx[j],
            forall|m: int|
                0 <= m < k && disputed(votes@, #[trigger] dims@[m]) ==> exists|i: int|
                    0 <= i < r@.len() && idx[i] == m,
        decreases dims.len() - k,
    {
        let d = dims[k];
        let found = dispute_of(votes, d);
        match found {
            Some(x) => {
                let ghost r0 = r@;
                let ghost idx0 = idx;
                r.push(x);
                proof {
                    idx = idx.push(k as int);
                    assert forall|m: int| 0 <= m < k + 1 && disputed(votes@, #[trigger] dims@[m]) implies exists|i: int|
                        0 <= i < r@.len() && idx[i] == m by {
                        if m < k {
                            let i = choose|i: int| 0 <= i < r0.len() && idx0[i] == m;
                            assert(idx[i] == m);
                        } else {
                            assert(idx[r0.len() as int] == m);
                        }
                    }
                    assert forall|i: int| 0 <= i < r@.len() implies disputed(votes@, (#[trigger] r@[i]).dimension) && dispute_for(
                        votes@,
                        r@[i].dimension,
                        r@[i],
                    ) by {
                        if i < r0.len() {
                            assert(r0[i] == r@[i]);
                        } else {
                            assert(r@[i] == x);
                        }
                    }
                }
            },
            None => {},
        }
        k = k + 1;
    }
    proof {
        assert forall|d: ValidationDimension| #[trigger] disputed(votes@, d) implies exists|i: int| 0 <= i < r@.len() && r@[i].dimension == d by {
            lemma_all_dimensions(d);
            let m = choose|m: int| 0 <= m < dims@.len() && dims@[m] == d;
            assert(disputed(votes@, dims@[m]));
            let i = choose|i: int| 0 <= i < r@.len() && idx[i] == m;
            assert(r@[i].dimension == d);
        }
        assert forall|i: int, j: int| 0 <= i < j < r@.len() implies (#[trigger] r@[i]).dimension != (#[trigger] r@[j]).dimension by {
            assert(idx[i] < idx[j]);
            lemma_dimensions_distinct(idx[i], idx[j]);
        }
    }
    r
}

/// The decision for a status: `approvals` of `total` votes approved;
/// `security_issues` says whether the security dimension drew objections;
/// `critical_dispute` whether some dispute is critical.
pub open spec fn decision_for(
    status: ConsensusStatus,
    approvals: nat,
    total: nat,
    security_issues: bool,
    critical_dispute: bool,
) -> (Decision, RequiredAction, Seq<Seq<char>>) {
    match status {
        ConsensusStatus::Approved => if security_issues {
            (
                Decision::ApproveWithConditions,
                RequiredAction::SecurityReview,
                seq!["Security review required before deployment"@],
            )
        } else {
            (Decision::Approve, RequiredAction::NoAction, Seq::empty())
        },
        ConsensusStatus::Rejected => if 10 * approvals < 3 * total {
            (
                Decision::Reject,
                RequiredAction::NoAction,
                seq!["Significant concerns raised - major revision needed"@],
            )
        } else {
            (Decision::RequestRevision, RequiredAction::NoAction, seq!["Address concerns and resubmit"@])
        },
        ConsensusStatus::Disputed => if critical_dispute {
            (
                Decision::EscalateToHuman,
                RequiredAction::ArchitectureReview,
                seq!["Critical disagreement requires human arbitration"@],
            )
        } else {
            (
                Decision::ApproveWithConditions,
                RequiredAction::DocumentationUpdate,
                seq!["Document disagreement resolution"@],
            )
        },
        ConsensusStatus::Pending => (
            Decision::EscalateToHuman,
            RequiredAction::NoAction,
            seq!["Insufficient validator participation"@],
        ),
        ConsensusStatus::Escalated => (Decision::EscalateToHuman, RequiredAction::NoAction, Seq::empty()),
    }
}

/// The texts of a list of strings.
pub open spec fn texts(v: Seq<String>) -> Seq<Seq<char>> {
    v.map_values(|s: String| s@)
}

/// Make the final decision (see `decision_for`); the approval ratio is
/// `approvals` over `total`.
pub fn make_final_decision(
    status: ConsensusStatus,
    approvals: usize,
    total: usize,
    security_issues: bool,
    disputes: &Vec<Dispute>,
) -> (f: FinalDecision)
    ensures
        ({
            let critical = exists|i: int|
                0 <= i < disputes@.len() && (#[trigger] disputes@[i]).severity == DisputeSeverity::Critical;
            let want = decision_for(status, approvals as nat, total as nat, security_issues, critical);
            &&& f.decision == want.0
            &&& f.required_action == want.1
            &&& texts(f.conditions@) == want.2
        }),
{
    let mut critical = false;
    let mut i: usize = 0;
    while i < disputes.len()
        invariant
            i <= disputes@.len(),
            critical == exists|j: int|
                0 <= j < i && (#[trigger] disputes@[j]).severity == DisputeSeverity::Critical,
        decreases disputes.len() - i,
    {
        if disputes[i].severity == DisputeSeverity::Critical {
            critical = true;
        }
        i = i + 1;
    }
    let (decision, required_action, condition) = match status {
        ConsensusStatus::Approved => if security_issues {
            (Decision::ApproveWithConditions, RequiredAction::SecurityReview, Some("Security review required before deployment"))
        } else {
            (Decision::Approve, RequiredAction::NoAction, None)
        },
        ConsensusStatus::Rejected => if (approvals as u128) * 10 < (total as u128) * 3 {
            (Decision::Reject, RequiredAction::NoAction, Some("Significant concerns raised - major revision needed"))
        } else {
            (Decision::RequestRevision, RequiredAction::NoAction, Some("Address concerns and resubmit"))
        },
        ConsensusStatus::Disputed => if critical {
            (Decision::EscalateToHuman, RequiredAction::ArchitectureReview, Some("Critical disagreement requires human arbitration"))
        } else {
            (Decision::ApproveWithConditions, RequiredAction::DocumentationUpdate, Some("Document disagreement resolution"))
        },
        ConsensusStatus::Pending => (Decision::EscalateToHuman, RequiredAction::NoAction, Some("Insufficient validator participation")),
        ConsensusStatus::Escalated => (Decision::EscalateToHuman, RequiredAction::NoAction, None),
    };
    let mut conditions: Vec<String> = Vec::new();
    match condition {
        Some(c) => {
            conditions.push(c.to_owned());
        },
        None => {},
    }
    proof {
        let want = decision_for(status, approvals as nat, total as nat, security_issues, critical);
        assert(texts(conditions@) =~= want.2);
    }
    FinalDecision { decision, required_action, conditions }
}

/// The name of a vote (its `Debug` text).
pub open spec fn vote_label(v: Vote) -> Seq<char> {
    match v {
        Vote::Approve => "Approve"@,
        Vote::Reject => "Reject"@,
        Vote::RequestChanges => "RequestChanges"@,
        Vote::Abstain => "Abstain"@,
    }
}

/// The issues raised on dimension `d`: for each vote other than an approval,
/// in order, its name, ": " and its reasoning.
pub open spec fn issue_texts(votes: Seq<ValidationVote>, d: ValidationDimension) -> Seq<Seq<char>>
    decreases votes.len(),
{
    if votes.len() == 0 {
        Seq::empty()
    } else {
        let prev = issue_texts(votes.drop_last(), d);
        let v = votes.last();
        if v.dimension == d && v.vote != Vote::Approve {
            prev.push(vote_label(v.vote) + ": "@ + v.reasoning@)
        } else {
            prev
        }
    }
}

/// The outcome of the votes on one dimension.
pub struct DimensionResult {
    pub dimension: ValidationDimension,
    pub approve_count: usize,
    pub vote_count: usize,
    pub issues: Vec<String>,
}

/// The outcome of consensus validation. `approvals` of `total_votes`
/// approved; dimensions with votes have one result each.
pub struct ConsensusResult {
    pub proposal_id: String,
    pub status: ConsensusStatus,
    pub approvals: usize,
    pub total_votes: usize,
    pub votes_by_dimension: Vec<DimensionResult>,
    pub disputes: Vec<Dispute>,
    pub recommendations: Vec<Recommendation>,
    pub final_decision: FinalDecision,
}

/// Something the result recommends addressing.
#[derive(Debug, Clone, Copy, PartialEq, Eq, Structural)]
pub enum Recommendation {
    /// No votes were received: consider escalating
    NoVotes,
    /// The dimension was approved by less than 80% of its votes
    LowApproval(ValidationDimension),
    /// A critical dispute on the dimension must be resolved
    ResolveDispute(ValidationDimension),
    /// A major disagreement on the dimension may need a third opinion
    ReviewDisagreement(ValidationDimension),
}

/// The dimension results approved by less than 80% of their votes, in
/// order, as recommendations.
pub open spec fn low_approval_recs(rs: Seq<DimensionResult>) -> Seq<Recommendation>
    decreases rs.len(),
{
    if rs.len() == 0 {
        Seq::empty()
    } else {
        let prev = low_approval_recs(rs.drop_last());
        let x = rs.last();
        if 5 * x.approve_count < 4 * x.vote_count {
            prev.push(Recommendation::LowApproval(x.dimension))
        } else {
            prev
        }
    }
}

/// The critical and major disputes, in order, as recommendations.
pub open spec fn dispute_recs(ds: Seq<Dispute>) -> Seq<Recommendation>
    decreases ds.len(),
{
    if ds.len() == 0 {
        Seq::empty()
    } else {
        let prev = dispute_recs(ds.drop_last());
        let x = ds.last();
        match x.severity {
            DisputeSeverity::Critical => prev.push(Recommendation::ResolveDispute(x.dimension)),
            DisputeSeverity::Major => prev.push(Recommendation::ReviewDisagreement(x.dimension)),
            DisputeSeverity::Minor => prev,
        }
    }
}

/// The recommendations for the dimension results and disputes: low
/// approvals first, then disputes.
fn recommendations_for(results: &Vec<DimensionResult>, disputes: &Vec<Dispute>) -> (r: Vec<Recommendation>)
    ensures
        r@ == low_approval_recs(results@) + dispute_recs(disputes@),
{
    let mut out: Vec<Recommendation> = Vec::new();
    let mut i: usize = 0;
    while i < results.len()
        invariant
            i <= results@.len(),
            out@ == low_approval_recs(results@.take(i as int)),
        decreases results.len() - i,
    {
        proof {
            assert(results@.take(i as int + 1).drop_last() =~= results@.take(i as int));
        }
        let x = &results[i];
        let low = x.approve_count < x.vote_count && x.vote_count - x.approve_count > x.approve_count / 4;
        proof {
            let a = x.approve_count as int;
            let v = x.vote_count as int;
            assert(low == (5 * a < 4 * v)) by (nonlinear_arith)
                requires
                    low == (a < v && v - a > a / 4),
                    a >= 0,
            ;
        }
        if low {
            out.push(Recommendation::LowApproval(x.dimension));
        }
        i = i + 1;
    }
    proof {
        assert(results@.take(results@.len() as int) =~= results@);
    }
    let ghost lows = out@;
    let mut j: usize = 0;
    while j < disputes.len()
        invariant
            j <= disputes@.len(),
            out@ == lows + dispute_recs(disputes@.take(j as int)),
        decreases disputes.len() - j,
    {
        proof {
            assert(disputes@.take(j as int + 1).drop_last() =~= disputes@.take(j as int));
        }
        match disputes[j].severity {
            DisputeSeverity::Critical => out.push(Recommendation::ResolveDispute(disputes[j].dimension)),
            DisputeSeverity::Major => out.push(Recommendation::ReviewDisagreement(disputes[j].dimension)),
            DisputeSeverity::Minor => {},
        }
        proof {
            assert(out@ =~= lows + dispute_recs(disputes@.take(j as int + 1)));
        }
        j = j + 1;
    }
    proof {
        assert(disputes@.take(disputes@.len() as int) =~= disputes@);
    }
    out
}

/// Some disputed dimension has as many approvals as rejections.
pub open spec fn critical_dispute(votes: Seq<ValidationVote>) -> bool {
    exists|d: ValidationDimension|
        #[trigger] disputed(votes, d) && count_votes(votes, d, Vote::Approve) == count_votes(
            votes,
            d,
            Vote::Reject,
        )
}

/// The status the votes reach: with enough approval (at least the threshold
/// in basis points) approved, unless a dispute is critical; without it, still
/// pending while there are fewer votes than validators needed, else rejected.
pub open spec fn status_for(votes: Seq<ValidationVote>, threshold_bp: nat, min_validators: nat) -> ConsensusStatus {
    if votes.len() == 0 {
        ConsensusStatus::Pending
    } else if 10000 * count_approvals(votes) >= threshold_bp * votes.len() {
        if critical_dispute(votes) {
            ConsensusStatus::Disputed
        } else {
            ConsensusStatus::Approved
        }
    } else if votes.len() < min_validators {
        ConsensusStatus::Pending
    } else {
        ConsensusStatus::Rejected
    }
}

/// A threshold in basis points times a count fits in 128 bits.
proof fn lemma_product_bound(a: int, b: int)
    requires
        0 <= a <= u32::MAX,
        0 <= b <= u64::MAX,
    ensures
        a * b <= u128::MAX,
{
    assert(a * b <= u32::MAX * u64::MAX) by (nonlinear_arith)
        requires
            0 <= a <= u32::MAX,
            0 <= b <= u64::MAX,
    ;
}

/// The name of a vote.
fn vote_name(v: Vote) -> (s: &'static str)
    ensures
        s@ == vote_label(v),
{
    match v {
        Vote::Approve => "Approve",
        Vote::Reject => "Reject",
        Vote::RequestChanges => "RequestChanges",
        Vote::Abstain => "Abstain",
    }
}

/// The result of dimension `d`.
fn dimension_result(votes: &Vec<ValidationVote>, d: ValidationDimension) -> (r: DimensionResult)
    ensures
        r.dimension == d,
        r.approve_count == count_votes(votes@, d, Vote::Approve),
        r.vote_count == count_dimension(votes@, d),
        texts(r.issues@) == issue_texts(votes@, d),
{
    let mut approvals: usize = 0;
    let mut total: usize = 0;
    let mut issues: Vec<String> = Vec::new();
    let mut i: usize = 0;
    while i < votes.len()
        invariant
            i <= votes@.len(),
            approvals == count_votes(votes@.take(i as int), d, Vote::Approve),
            total == count_dimension(votes@.take(i as int), d),
            approvals <= i && total <= i,
            texts(issues@) == issue_texts(votes@.take(i as int), d),
        decreases votes.len() - i,
    {
        proof {
            assert(votes@.take(i as int + 1).drop_last() =~= votes@.take(i as int));
            assert(votes@.take(i as int + 1).last() == votes@[i as int]);
        }
        let v = &votes[i];
        if v.dimension == d {
            total = total + 1;
            if v.vote == Vote::Approve {
                approvals = approvals + 1;
            } else {
                let mut text: Vec<char> = Vec::new();
                append_text(&mut text, vote_name(v.vote));
                append_text(&mut text, ": ");
                append_text(&mut text, v.reasoning.as_str());
                let ghost before = issues@;
                issues.push(string_from_chars(&text));
                proof {
                    assert(texts(issues@) =~= texts(before).push(vote_label(v.vote) + ": "@ + v.reasoning@));
                }
            }
        }
        i = i + 1;
    }
    proof {
        assert(votes@.take(votes@.len() as int) == votes@);
    }
    DimensionResult { dimension: d, approve_count: approvals, vote_count: total, issues }
}

/// Compute consensus on a proposal from its votes: tally them per dimension,
/// find disputes, decide the status (see `status_for`) and the final
/// decision (see `decision_for`); security objections are the votes on
/// security other than approvals. Without votes the proposal is pending and
/// escalated to a human.
pub fn compute_consensus(proposal_id: String, votes: &Vec<ValidationVote>, config: &ConsensusConfig) -> (r:
    ConsensusResult)
    ensures
        r.proposal_id == proposal_id,
        r.status == status_for(votes@, config.approval_threshold_bp as nat, config.min_validators as nat),
        r.approvals == count_approvals(votes@),
        r.total_votes == votes@.len(),
        forall|i: int|
            0 <= i < r.disputes@.len() ==> disputed(votes@, (#[trigger] r.disputes@[i]).dimension)
                && dispute_for(votes@, r.disputes@[i].dimension, r.disputes@[i]),
        forall|d: ValidationDimension|
            #[trigger] disputed(votes@, d) ==> exists|i: int|
                0 <= i < r.disputes@.len() && r.disputes@[i].dimension == d,
        forall|i: int, j: int|
            0 <= i < j < r.disputes@.len() ==> (#[trigger] r.disputes@[i]).dimension
                != (#[trigger] r.disputes@[j]).dimension,
        forall|i: int|
            0 <= i < r.votes_by_dimension@.len() ==> {
                let x = #[trigger] r.votes_by_dimension@[i];
                &&& x.vote_count > 0
                &&& x.approve_count == count_votes(votes@, x.dimension, Vote::Approve)
                &&& x.vote_count == count_dimension(votes@, x.dimension)
                &&& texts(x.issues@) == issue_texts(votes@, x.dimension)
            },
        forall|d: ValidationDimension|
            count_dimension(votes@, d) > 0 ==> exists|i: int|
                0 <= i < r.votes_by_dimension@.len() && (#[trigger] r.votes_by_dimension@[i]).dimension == d,
        forall|i: int, j: int|
            0 <= i < j < r.votes_by_dimension@.len() ==> dimension_index(
                (#[trigger] r.votes_by_dimension@[i]).dimension,
            ) < dimension_index((#[trigger] r.votes_by_dimension@[j]).dimension),
        sum_vote_counts(r.votes_by_dimension@) == votes@.len(),
        r.recommendations@ == (if votes@.len() == 0 {
            seq![Recommendation::NoVotes]
        } else {
            low_approval_recs(r.votes_by_dimension@) + dispute_recs(r.disputes@)
        }),
        votes@.len() == 0 ==> r.final_decision.decision == Decision::EscalateToHuman
            && r.final_decision.required_action == RequiredAction::NoAction
            && r.final_decision.conditions@.len() == 0,
        votes@.len() > 0 ==> ({
            let security = count_dimension(votes@, ValidationDimension::SecurityPosture)
                > count_votes(votes@, ValidationDimension::SecurityPosture, Vote::Approve);
            let want = decision_for(
                r.status,
                count_approvals(votes@),
                votes@.len(),
                security,
                critical_dispute(votes@),
            );
            &&& r.final_decision.decision == want.0
            &&& r.final_decision.required_action == want.1
            &&& texts(r.final_decision.conditions@) == want.2
        }),
{
    let dims = dimension_order();
    let mut results: Vec<DimensionResult> = Vec::new();
    let mut k: usize = 0;
    while k < dims.len()
        invariant
            dims@ == all_dimensions(),
            k <= dims@.len(),
            forall|i: int|
                0 <= i < results@.len() ==> {
                    let x = #[trigger] results@[i];
                    &&& x.vote_count > 0
                    &&& x.approve_count == count_votes(votes@, x.dimension, Vote::Approve)
                    &&& x.vote_count == count_dimension(votes@, x.dimension)
                    &&& texts(x.issues@) == issue_texts(votes@, x.dimension)
                },
            forall|m: int|
                0 <= m < k && count_dimension(votes@, #[trigger] dims@[m]) > 0 ==> exists|i: int|
                    0 <= i < results@.len() && results@[i].dimension == dims@[m],
            forall|i: int| 0 <= i < results@.len() ==> dimension_index((#[trigger] results@[i]).dimension) < k,
            sum_vote_counts(results@) == dims_total(votes@, k as int),
            forall|i: int, j: int|
                0 <= i < j < results@.len() ==> dimension_index((#[trigger] results@[i]).dimension)
                    < dimension_index((#[trigger] results@[j]).dimension),
        decreases dims.len() - k,
    {
        let x = dimension_result(votes, dims[k]);
        if x.vote_count > 0 {
            let ghost before = results@;
            results.push(x);
            proof {
                assert(results@.drop_last() =~= before);
                assert forall|m: int| 0 <= m < k + 1 && count_dimension(votes@, #[trigger] dims@[m]) > 0 implies exists|i: int|
                    0 <= i < results@.len() && results@[i].dimension == dims@[m] by {
                    if m < k {
                        let i = choose|i: int| 0 <= i < before.len() && before[i].dimension == dims@[m];
                        assert(results@[i] == before[i]);
                    } else {
                        assert(results@[before.len() as int].dimension == dims@[m]);
                    }
                }
                assert(dimension_index(dims@[k as int]) == k);
                assert forall|i: int| 0 <= i < results@.len() implies dimension_index(
                    (#[trigger] results@[i]).dimension,
                ) < k + 1 by {
                    if i < before.len() {
                        assert(results@[i] == before[i]);
                    }
                }
                assert forall|i: int, j: int|
                    0 <= i < j < results@.len() implies dimension_index((#[trigger] results@[i]).dimension)
                    < dimension_index((#[trigger] results@[j]).dimension) by {
                    assert(results@[i] == before[i]);
                    if j < before.len() {
                        assert(results@[j] == before[j]);
                    }
                }
            }
        }
        k = k + 1;
    }
    proof {
        lemma_dims_total(votes@);
    }
    let mut approvals: usize = 0;
    let mut i: usize = 0;
    while i < votes.len()
        invariant
            i <= votes@.len(),
            approvals == count_approvals(votes@.take(i as int)),
            approvals <= i,
        decreases votes.len() - i,
    {
        proof {
            assert(votes@.take(i as int + 1).drop_last() =~= votes@.take(i as int));
        }
        if votes[i].vote == Vote::Approve {
            approvals = approvals + 1;
        }
        i = i + 1;
    }
    proof {
        assert(votes@.take(votes@.len() as int) == votes@);
        assert forall|d: ValidationDimension| count_dimension(votes@, d) > 0 implies exists|i: int|
            0 <= i < results@.len() && (#[trigger] results@[i]).dimension == d by {
            lemma_all_dimensions(d);
            let m = choose|m: int| 0 <= m < dims@.len() && dims@[m] == d;
            assert(count_dimension(votes@, dims@[m]) > 0);
        }
    }
    let disputes = detect_disputes(votes);
    let total = votes.len();
    let mut critical = false;
    let mut j: usize = 0;
    while j < disputes.len()
        invariant
            j <= disputes@.len(),
            critical == exists|m: int|
                0 <= m < j && (#[trigger] disputes@[m]).severity == DisputeSeverity::Critical,
        decreases disputes.len() - j,
    {
        if disputes[j].severity == DisputeSeverity::Critical {
            critical = true;
        }
        j = j + 1;
    }
    proof {
        reveal(dispute_for);
        if critical {
            let m = choose|m: int| 0 <= m < disputes@.len() && (#[trigger] disputes@[m]).severity == DisputeSeverity::Critical;
            let d = disputes@[m].dimension;
            assert(disputed(votes@, d));
        }
        if critical_dispute(votes@) {
            let d = choose|d: ValidationDimension| #[trigger] disputed(votes@, d) && count_votes(votes@, d, Vote::Approve)
                == count_votes(votes@, d, Vote::Reject);
            let m = choose|m: int| 0 <= m < disputes@.len() && disputes@[m].dimension == d;
            assert(disputes@[m].severity == DisputeSeverity::Critical);
        }
    }
    proof {
        lemma_product_bound(config.approval_threshold_bp as int, total as int);
    }
    let status = if total == 0 {
        ConsensusStatus::Pending
    } else if (approvals as u128) * 10000 >= (config.approval_threshold_bp as u128) * (total as u128) {
        if critical {
            ConsensusStatus::Disputed
        } else {
            ConsensusStatus::Approved
        }
    } else if total < config.min_validators {
        ConsensusStatus::Pending
    } else {
        ConsensusStatus::Rejected
    };
    let security = dimension_result(votes, ValidationDimension::SecurityPosture);
    let has_security_issues = security.vote_count > security.approve_count;
    let final_decision = if total == 0 {
        FinalDecision { decision: Decision::EscalateToHuman, required_action: RequiredAction::NoAction, conditions: Vec::new() }
    } else {
        make_final_decision(status, approvals, total, has_security_issues, &disputes)
    };
    proof {
        if total == 0 {
            assert(texts(final_decision.conditions@) =~= Seq::<Seq<char>>::empty());
        }
    }
    let recommendations = if total == 0 {
        let mut only: Vec<Recommendation> = Vec::new();
        only.push(Recommendation::NoVotes);
        only
    } else {
        recommendations_for(&results, &disputes)
    };
    ConsensusResult {
        proposal_id,
        status,
        approvals,
        total_votes: total,
        votes_by_dimension: results,
        disputes,
        recommendations,
        final_decision,
    }
}

/// A dimension on which the approvals equal the rejections (and there are
/// some) keeps the proposal from being approved: once the approvals reach
/// the threshold the status is `Disputed`, and the decision is to escalate
/// to a human with an architecture review, because the disagreement is
/// critical.
pub proof fn law_even_split_is_disputed(
    votes: Seq<ValidationVote>,
    threshold_bp: nat,
    min_validators: nat,
    d: ValidationDimension,
    security_issues: bool,
)
    requires
        count_votes(votes, d, Vote::Approve) > 0,
        count_votes(votes, d, Vote::Approve) == count_votes(votes, d, Vote::Reject),
    ensures
        status_for(votes, threshold_bp, min_validators) != ConsensusStatus::Approved,
        10000 * count_approvals(votes) >= threshold_bp * votes.len() ==> {
            &&& status_for(votes, threshold_bp, min_validators) == ConsensusStatus::Disputed
            &&& decision_for(
                status_for(votes, threshold_bp, min_validators),
                count_approvals(votes),
                votes.len(),
                security_issues,
                critical_dispute(votes),
            ) == (
                Decision::EscalateToHuman,
                RequiredAction::ArchitectureReview,
                seq!["Critical disagreement requires human arbitration"@],
            )
        },
{
    assert(votes.len() > 0);
    assert(disputed(votes, d));
    assert(critical_dispute(votes));
}

/// An approved proposal has votes, its approvals reach the threshold, and
/// no dimension is split evenly between approvals and rejections.
pub proof fn law_approved_has_no_even_split(votes: Seq<ValidationVote>, threshold_bp: nat, min_validators: nat)
    requires
        status_for(votes, threshold_bp, min_validators) == ConsensusStatus::Approved,
    ensures
        votes.len() > 0,
        10000 * count_approvals(votes) >= threshold_bp * votes.len(),
        forall|d: ValidationDimension|
            #[trigger] count_votes(votes, d, Vote::Approve) == 0 || count_votes(votes, d, Vote::Approve)
                != count_votes(votes, d, Vote::Reject),
{
    assert forall|d: ValidationDimension|
        #[trigger] count_votes(votes, d, Vote::Approve) == 0 || count_votes(votes, d, Vote::Approve)
            != count_votes(votes, d, Vote::Reject) by {
        if count_votes(votes, d, Vote::Approve) > 0 && count_votes(votes, d, Vote::Approve) == count_votes(
            votes,
            d,
            Vote::Reject,
        ) {
            law_even_split_is_disputed(votes, threshold_bp, min_validators, d, false);
        }
    }
}

/// The status follows the approval ratio: with votes, approvals reaching the
/// threshold (in basis points of the votes) give `Approved` or `Disputed`;
/// below it, too few votes leave the proposal `Pending` and enough votes
/// reject it. Without votes it is `Pending`. No other status comes out.
pub proof fn law_status_follows_approval(votes: Seq<ValidationVote>, threshold_bp: nat, min_validators: nat)
    ensures
        ({
            let s = status_for(votes, threshold_bp, min_validators);
            let reached = 10000 * count_approvals(votes) >= threshold_bp * votes.len();
            &&& votes.len() == 0 ==> s == ConsensusStatus::Pending
            &&& votes.len() > 0 && reached ==> (s == ConsensusStatus::Approved || s == ConsensusStatus::Disputed)
            &&& votes.len() > 0 && !reached && votes.len() < min_validators ==> s == ConsensusStatus::Pending
            &&& votes.len() > 0 && !reached && votes.len() >= min_validators ==> s == ConsensusStatus::Rejected
        }),
{
}

} // verus!



