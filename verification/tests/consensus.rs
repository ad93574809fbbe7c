use sentinel_core::consensus::{
    compute_consensus, detect_disputes, get_required_dimensions, ConsensusConfig, ConsensusStatus,
    Decision, DisputeSeverity, ProposalContent, Recommendation, ProposalType, RequiredAction, ValidationDimension,
    ValidationPriority, ValidationProposal, ValidationVote, Vote,
};
use sentinel_core::federation::{ConsensusEngine, Proposal, Vote as AgentVote};
use sentinel_core::goal::GoalStatus;

fn vote(id: &str, v: Vote, d: ValidationDimension) -> ValidationVote {
    ValidationVote {
        proposal_id: "p".to_string(),
        validator_id: id.to_string(),
        vote: v,
        confidence: 0.9f64.to_bits(),
        reasoning: format!("reason of {}", id),
        dimension: d,
        checks_performed: vec![],
        timestamp: 0,
    }
}

#[test]
fn test_proposal_creation() {
    let proposal = ValidationProposal {
        proposal_id: "test-123".to_string(),
        proposal_type: ProposalType::CodeChange,
        description: "Test proposal".to_string(),
        content: ProposalContent::CodeSnippet {
            language: "rust".to_string(),
            code: "fn main() {}".to_string(),
            path: "src/main.rs".to_string(),
        },
        proposer: uuid::Uuid::new_v4().to_string(),
        proposed_at: chrono::Utc::now().timestamp_millis(),
        priority: ValidationPriority::High,
    };

    assert_eq!(proposal.proposal_type, ProposalType::CodeChange);
}

#[test]
fn test_vote_creation() {
    let vote = ValidationVote {
        proposal_id: "test-123".to_string(),
        validator_id: uuid::Uuid::new_v4().to_string(),
        vote: Vote::Approve,
        confidence: 0.95f64.to_bits(),
        reasoning: "Code looks correct".to_string(),
        dimension: ValidationDimension::LogicCorrectness,
        checks_performed: vec!["syntax_check".to_string()],
        timestamp: chrono::Utc::now().timestamp_millis(),
    };

    assert!(matches!(vote.vote, Vote::Approve));
    assert_eq!(f64::from_bits(vote.confidence), 0.95);
}

#[test]
fn required_dimensions_of_a_code_change() {
    assert_eq!(
        get_required_dimensions(ProposalType::CodeChange),
        vec![
            ValidationDimension::LogicCorrectness,
            ValidationDimension::Testability,
            ValidationDimension::Maintainability
        ]
    );
    assert_eq!(get_required_dimensions(ProposalType::GoalModification).len(), 2);
}

#[test]
fn no_votes_is_pending_and_escalated() {
    let r = compute_consensus("p".to_string(), &vec![], &ConsensusConfig::standard());
    assert_eq!(r.status, ConsensusStatus::Pending);
    assert_eq!(r.final_decision.decision, Decision::EscalateToHuman);
    assert_eq!(r.final_decision.required_action, RequiredAction::NoAction);
    assert!(r.final_decision.conditions.is_empty());
}

#[test]
fn unanimous_approval_is_approved() {
    let votes = vec![
        vote("a", Vote::Approve, ValidationDimension::LogicCorrectness),
        vote("b", Vote::Approve, ValidationDimension::Testability),
        vote("c", Vote::Approve, ValidationDimension::SecurityPosture),
    ];
    let r = compute_consensus("p".to_string(), &votes, &ConsensusConfig::standard());
    assert_eq!(r.status, ConsensusStatus::Approved);
    assert_eq!(r.final_decision.decision, Decision::Approve);
    assert_eq!(r.approvals, 3);
    assert_eq!(r.votes_by_dimension.len(), 3);
    assert!(r.disputes.is_empty());
}

#[test]
fn exactly_eighty_percent_approves_with_security_conditions() {
    let votes = vec![
        vote("a", Vote::Approve, ValidationDimension::LogicCorrectness),
        vote("b", Vote::Approve, ValidationDimension::LogicCorrectness),
        vote("c", Vote::Approve, ValidationDimension::SecurityPosture),
        vote("d", Vote::Approve, ValidationDimension::Testability),
        vote("e", Vote::Abstain, ValidationDimension::SecurityPosture),
    ];
    let r = compute_consensus("p".to_string(), &votes, &ConsensusConfig::standard());
    assert_eq!(r.status, ConsensusStatus::Approved);
    assert_eq!(r.final_decision.decision, Decision::ApproveWithConditions);
    assert_eq!(r.final_decision.required_action, RequiredAction::SecurityReview);
    assert_eq!(
        r.final_decision.conditions,
        vec!["Security review required before deployment".to_string()]
    );
    let security = r
        .votes_by_dimension
        .iter()
        .find(|d| d.dimension == ValidationDimension::SecurityPosture)
        .unwrap();
    assert_eq!(security.issues, vec!["Abstain: reason of e".to_string()]);
}

#[test]
fn split_votes_are_a_critical_dispute() {
    let votes = vec![
        vote("a", Vote::Approve, ValidationDimension::SecurityPosture),
        vote("b", Vote::Reject, ValidationDimension::SecurityPosture),
    ];
    let disputes = detect_disputes(&votes);
    assert_eq!(disputes.len(), 1);
    assert_eq!(disputes[0].severity, DisputeSeverity::Critical);
    assert_eq!(disputes[0].disagreement, "a approves but b rejects");
    let r = compute_consensus("p".to_string(), &votes, &ConsensusConfig::standard());
    // 50% approval: below the threshold, fewer votes than validators needed.
    assert_eq!(r.status, ConsensusStatus::Pending);
    assert_eq!(r.final_decision.decision, Decision::EscalateToHuman);
}

#[test]
fn dispute_severity_major_and_minor() {
    let major = vec![
        vote("a", Vote::Approve, ValidationDimension::Testability),
        vote("b", Vote::Approve, ValidationDimension::Testability),
        vote("c", Vote::Reject, ValidationDimension::Testability),
    ];
    assert_eq!(detect_disputes(&major)[0].severity, DisputeSeverity::Major);
    let mut minor = vec![vote("r", Vote::Reject, ValidationDimension::Testability)];
    for i in 0..4 {
        minor.push(vote(&format!("a{}", i), Vote::Approve, ValidationDimension::Testability));
    }
    // 4 of 5 approve, 1 of 5 rejects: 20% is not above 30%.
    assert_eq!(detect_disputes(&minor)[0].severity, DisputeSeverity::Minor);
}

#[test]
fn low_approval_with_enough_votes_is_rejected() {
    let votes = vec![
        vote("a", Vote::Reject, ValidationDimension::LogicCorrectness),
        vote("b", Vote::Reject, ValidationDimension::Testability),
        vote("c", Vote::RequestChanges, ValidationDimension::Maintainability),
        vote("d", Vote::Approve, ValidationDimension::Maintainability),
    ];
    let r = compute_consensus("p".to_string(), &votes, &ConsensusConfig::standard());
    assert_eq!(r.status, ConsensusStatus::Rejected);
    // 25% approval is below 30%.
    assert_eq!(r.final_decision.decision, Decision::Reject);
}

#[test]
fn an_agent_votes_once_per_proposal() {
    let mut engine = ConsensusEngine::new();
    let pid = 7u128;
    engine.submit_proposal(Proposal {
        id: pid,
        agent_id: 1,
        goal_id: 2,
        suggested_status: GoalStatus::Completed,
        rationale: "done".to_string(),
        timestamp: 0,
    });
    let v = |agent: u128| AgentVote {
        agent_id: agent,
        proposal_id: pid,
        approve: true,
        authority_weight: 1.0f64.to_bits(),
    };
    assert!(engine.cast_vote(v(10)));
    assert!(!engine.cast_vote(v(10)));
    assert!(engine.cast_vote(v(11)));
    assert!(!engine.cast_vote(AgentVote { proposal_id: 99, ..v(12) }));
    assert_eq!(engine.votes_of(pid).unwrap().len(), 2);
}

#[test]
fn recommendations_follow_votes_and_disputes() {
    let r = compute_consensus("p".to_string(), &vec![], &ConsensusConfig::standard());
    assert_eq!(r.recommendations, vec![Recommendation::NoVotes]);
    let votes = vec![
        vote("a", Vote::Approve, ValidationDimension::SecurityPosture),
        vote("b", Vote::Reject, ValidationDimension::SecurityPosture),
        vote("c", Vote::Approve, ValidationDimension::LogicCorrectness),
        vote("d", Vote::Approve, ValidationDimension::LogicCorrectness),
        vote("e", Vote::Approve, ValidationDimension::LogicCorrectness),
        vote("f", Vote::Approve, ValidationDimension::LogicCorrectness),
        vote("g", Vote::Abstain, ValidationDimension::LogicCorrectness),
    ];
    let r = compute_consensus("p".to_string(), &votes, &ConsensusConfig::standard());
    // Security: 1 of 2 approve (50%); logic: 4 of 5 (exactly 80%).
    assert_eq!(
        r.recommendations,
        vec![
            Recommendation::LowApproval(ValidationDimension::SecurityPosture),
            Recommendation::ResolveDispute(ValidationDimension::SecurityPosture),
        ]
    );
    let dims: Vec<ValidationDimension> = r.votes_by_dimension.iter().map(|d| d.dimension).collect();
    assert_eq!(dims, vec![ValidationDimension::SecurityPosture, ValidationDimension::LogicCorrectness]);
    let total: usize = r.votes_by_dimension.iter().map(|d| d.vote_count).sum();
    assert_eq!(total, r.total_votes);
}
