use sentinel_core::goal::Goal;
use sentinel_core::governance::Intent;
use sentinel_core::guardrail::{GuardrailEngine, GuardrailVerdict};
use sentinel_core::manifold::{GoalManifold, Invariant};
use sentinel_core::predicate::Predicate;
use sentinel_core::predicate_eval::{EvalStep, PredicateState};

/// The outcome of each invariant's predicate, for predicates that need no
/// outside check.
fn outcomes(manifold: &GoalManifold, state: &PredicateState) -> Vec<Result<bool, String>> {
    manifold
        .invariants
        .iter()
        .map(|inv| match inv.predicate.evaluate_step(state, &Vec::new()) {
            EvalStep::Done(Ok(b)) => Ok(b),
            EvalStep::Done(Err(e)) => Err(format!("{:?}", e)),
            EvalStep::Ask(q) => panic!("unexpected query {:?}", q),
        })
        .collect()
}

fn decide(manifold: &GoalManifold, score: f64, override_count: usize) -> (GuardrailVerdict, sentinel_core::guardrail::GuardrailDecision) {
    let state = PredicateState::new(".".to_string());
    let verdict = GuardrailEngine::evaluate_with_outcomes(
        manifold,
        score.to_bits(),
        &outcomes(manifold, &state),
        override_count,
    );
    let threshold = f64::from_bits(manifold.sensitivity);
    let decision = GuardrailEngine::decision(
        verdict,
        score.to_bits(),
        &format!("{:.1}", score * 100.0),
        &format!("{:.1}", threshold * 100.0),
    );
    (verdict, decision)
}

#[test]
fn guardrail_blocks_when_below_sensitivity() {
    let mut manifold = GoalManifold::new(Intent::new("Test".to_string(), Vec::new()));
    manifold.sensitivity = 0.9f64.to_bits();

    // No goals: the completion score is 0.
    let (_, decision) = decide(&manifold, 0.0, 0);
    assert!(!decision.allowed);
}

#[test]
fn guardrail_blocks_on_critical_invariant_violation() {
    let mut manifold = GoalManifold::new(Intent::new("Test".to_string(), Vec::new()));
    manifold.sensitivity = 0.0f64.to_bits();

    let mut goal = Goal::new("Always complete".to_string());
    goal.success_criteria.push(Predicate::AlwaysTrue);
    manifold.add_goal(goal).unwrap();
    manifold
        .add_invariant(Invariant::critical("must fail".to_string(), Predicate::AlwaysFalse))
        .unwrap();

    let (_, decision) = decide(&manifold, 0.0, 0);
    assert!(!decision.allowed);
    assert!(decision
        .reason
        .unwrap_or_default()
        .contains("CRITICAL INVARIANTS"));
}

#[test]
fn guardrail_messages_and_order_of_checks() {
    let mut manifold = GoalManifold::new(Intent::new("Test".to_string(), Vec::new()));
    manifold.sensitivity = 0.5f64.to_bits();
    manifold
        .add_invariant(Invariant::critical("must fail".to_string(), Predicate::AlwaysFalse))
        .unwrap();
    manifold
        .add_invariant(Invariant::critical("also fails".to_string(), Predicate::AlwaysFalse))
        .unwrap();

    let (verdict, decision) = decide(&manifold, 0.25, 0);
    assert_eq!(verdict, GuardrailVerdict::BelowThreshold);
    assert_eq!(
        decision.reason.unwrap(),
        "ALIGNMENT CRITICAL: Il progetto ha un allineamento del 25.0%, inferiore alla soglia di sicurezza (50.0%). Esecuzione bloccata."
    );
    assert_eq!(decision.score_at_check, 0.25f64.to_bits());

    let (verdict, decision) = decide(&manifold, 0.75, 50);
    assert_eq!(verdict, GuardrailVerdict::CriticalInvariants(2));
    assert_eq!(
        decision.reason.unwrap(),
        "CRITICAL INVARIANTS VIOLATED: 2 invarianti critiche non soddisfatte."
    );
}

#[test]
fn guardrail_counts_overrides_then_allows() {
    let mut manifold = GoalManifold::new(Intent::new("Test".to_string(), Vec::new()));
    manifold.sensitivity = 0.5f64.to_bits();
    manifold
        .add_invariant(Invariant::critical("holds".to_string(), Predicate::AlwaysTrue))
        .unwrap();

    let (verdict, decision) = decide(&manifold, 0.5, 11);
    assert_eq!(verdict, GuardrailVerdict::Unstable);
    assert!(decision.reason.unwrap().starts_with("SYSTEM INSTABILITY"));

    let (verdict, decision) = decide(&manifold, 0.5, 10);
    assert_eq!(verdict, GuardrailVerdict::Allowed);
    assert!(decision.allowed);
    assert!(decision.reason.is_none());
}
