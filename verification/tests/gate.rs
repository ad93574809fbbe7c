use sentinel_core::action::{Action, ActionType};
use sentinel_core::cognitive::{CognitiveMode, DecisionType};
use sentinel_core::error::{GoalError, SentinelError};
use sentinel_core::gate::{complete_goal_step, contributing_goals, CognitiveGate, GateChecks};
use sentinel_core::goal::{Goal, GoalStatus};
use sentinel_core::governance::Intent;
use sentinel_core::manifold::GoalManifold;
use sentinel_core::predicate::Predicate;

fn action(desc: &str) -> Action {
    Action::new(ActionType::RunTests { suite: "unit".to_string() }, desc.to_string())
}

fn clear() -> GateChecks {
    GateChecks {
        unjustified: None,
        safe: true,
        violations: None,
        deviation_percent: None,
        alternatives: vec![],
        low_value: None,
    }
}

#[test]
fn gate_rejects_in_order_and_keeps_state() {
    let mut gate = CognitiveGate::new();
    let mut c = clear();
    c.unjustified = Some("Action does not contribute to any goal".to_string());
    c.safe = false;
    let d = gate.gate_action(action("a"), c);
    assert_eq!(d.decision_type, DecisionType::Reject);
    assert_eq!(d.reason, "Cannot justify action: Action does not contribute to any goal");

    let mut c = clear();
    c.safe = false;
    c.violations = Some("[]".to_string());
    assert_eq!(gate.gate_action(action("a"), c).reason, "Action failed safety check");

    let mut c = clear();
    c.violations = Some("[\"no secrets\"]".to_string());
    assert_eq!(gate.gate_action(action("a"), c).reason, "Violates invariants: [\"no secrets\"]");

    let mut c = clear();
    c.deviation_percent = Some("73".to_string());
    assert_eq!(gate.gate_action(action("a"), c).reason, "High deviation risk (73%)");

    let mut c = clear();
    c.deviation_percent = Some("73".to_string());
    c.alternatives = vec![action("b")];
    let d = gate.gate_action(action("write tests"), c);
    assert_eq!(d.decision_type, DecisionType::ProposeAlternative);
    assert_eq!(d.reason, "Rejected 'write tests': 73% chance of deviation");
    assert_eq!(d.alternatives.len(), 1);

    let mut c = clear();
    c.low_value = Some("0.05".to_string());
    let d = gate.gate_action(action("a"), c);
    assert_eq!(d.decision_type, DecisionType::Skip);
    assert_eq!(d.reason, "Low value to goal (VOI=0.05)");

    assert_eq!(gate.mode, CognitiveMode::Planning);
    assert!(gate.decision_log.is_empty());
    assert!(gate.execution_trace.is_empty());
}

#[test]
fn gate_approval_records_the_action() {
    let mut gate = CognitiveGate::new();
    let a = action("run the suite");
    let id = a.id;
    let d = gate.gate_action(a, clear());
    assert_eq!(d.decision_type, DecisionType::Approve);
    assert_eq!(d.reason, "Action approved: run the suite");
    assert_eq!(gate.mode, CognitiveMode::Executing);
    assert_eq!(gate.decision_log, vec![id]);
    assert_eq!(gate.execution_trace.len(), 1);
    assert_eq!(gate.execution_trace[0].id, id);
}

#[test]
fn goals_are_completed_through_the_lifecycle() {
    let mut m = GoalManifold::new(Intent::new("Test".to_string(), Vec::new()));
    let mut g = Goal::new("ship".to_string());
    g.success_criteria.push(Predicate::AlwaysTrue);
    let id = g.id;
    m.add_goal(g).unwrap();
    assert!(complete_goal_step(&mut m, id).is_ok());
    assert_eq!(m.goal_dag.get_goal(id).unwrap().status, GoalStatus::Completed);
    match complete_goal_step(&mut m, id) {
        Err(SentinelError::Goal(GoalError::InvalidStateTransition { from, to })) => {
            assert_eq!(from, "Completed");
            assert_eq!(to, "Completed");
        }
        other => panic!("unexpected {:?}", other),
    }
    match complete_goal_step(&mut m, 12345) {
        Err(SentinelError::Goal(GoalError::NotFound(x))) => assert_eq!(x, 12345),
        other => panic!("unexpected {:?}", other),
    }
}

#[test]
fn completing_a_goal_returns_to_planning() {
    let mut m = GoalManifold::new(Intent::new("Test".to_string(), Vec::new()));
    let mut g = Goal::new("ship".to_string());
    g.success_criteria.push(Predicate::AlwaysTrue);
    let id = g.id;
    m.add_goal(g).unwrap();
    let mut gate = CognitiveGate::new();
    gate.gate_action(action("run the suite"), clear());
    assert_eq!(gate.mode, CognitiveMode::Executing);

    assert!(gate.begin_completion(&mut m, id).is_ok());
    assert_eq!(gate.mode, CognitiveMode::Learning);
    gate.finish_completion(true);
    assert_eq!(gate.mode, CognitiveMode::Planning);
    assert_eq!(m.goal_dag.get_goal(id).unwrap().status, GoalStatus::Completed);

    gate.gate_action(action("run again"), clear());
    assert!(gate.complete_goal(&mut m, 999, true).is_err());
    assert_eq!(gate.mode, CognitiveMode::Executing);
    assert_eq!(gate.decision_log.len(), 2);
}

#[test]
fn contributing_goals_by_id_then_by_description() {
    let mut m = GoalManifold::new(Intent::new("Test".to_string(), Vec::new()));
    let mut auth = Goal::new("Add Authentication".to_string());
    auth.success_criteria.push(Predicate::AlwaysTrue);
    let mut docs = Goal::new("write docs".to_string());
    docs.success_criteria.push(Predicate::AlwaysTrue);
    let (auth_id, docs_id) = (auth.id, docs.id);
    m.add_goal(auth).unwrap();
    m.add_goal(docs).unwrap();

    let by_text = action("Implement: add authentication and WRITE DOCS");
    assert_eq!(contributing_goals(&m, &by_text), vec![auth_id, docs_id]);
    let named = action("unrelated").for_goal(docs_id);
    assert_eq!(contributing_goals(&m, &named), vec![docs_id]);
    let unknown = action("write docs").for_goal(42);
    assert_eq!(contributing_goals(&m, &unknown), vec![docs_id]);
    assert!(contributing_goals(&m, &action("refactor")).is_empty());
}
