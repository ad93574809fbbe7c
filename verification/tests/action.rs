use sentinel_core::action::{Action, ActionDecision, ActionResult, ActionType};
use sentinel_core::cognitive::{Change, DecisionType};

#[test]
fn test_action_creation() {
    let action = Action::new(
        ActionType::CreateFile { path: "test.txt".to_string(), content: "Hello".to_string() },
        "Create test file".to_string(),
    );
    assert!(action.is_safe());
    assert_eq!(f64::from_bits(action.expected_value), 0.5);
}

#[test]
fn test_action_safety_critical_file() {
    let action = Action::new(
        ActionType::DeleteFile { path: "Cargo.toml".to_string(), backup: false },
        "Delete Cargo.toml".to_string(),
    );
    assert!(!action.is_safe());
}

#[test]
fn test_action_safety_dangerous_command() {
    let action = Action::new(
        ActionType::RunCommand { command: "rm -rf /".to_string(), working_dir: ".".to_string() },
        "Dangerous command".to_string(),
    );
    assert!(!action.is_safe());
}

#[test]
fn test_action_decision_approve() {
    let action = Action::new(ActionType::RunTests { suite: "unit".to_string() }, "Run tests".to_string());
    let decision = ActionDecision::approve(&action);
    assert!(decision.is_approved());
}

#[test]
fn test_action_decision_reject() {
    let decision = ActionDecision::reject("Unsafe operation".to_string());
    assert!(!decision.is_approved());
    assert_eq!(decision.decision_type, DecisionType::Reject);
}

#[test]
fn test_action_result_success() {
    let result = ActionResult::success(0x1234, "OK".to_string(), 1.5f64.to_bits());
    assert!(result.success);
    assert_eq!(result.output, "OK");
    assert_eq!(f64::from_bits(result.duration), 1.5);
}

#[test]
fn test_action_result_failure() {
    let result = ActionResult::failure(0x1234, "Failed".to_string(), 0.5f64.to_bits());
    assert!(!result.success);
    assert_eq!(result.error.unwrap(), "Failed");
}

#[test]
fn safety_rules_in_detail() {
    let delete = |p: &str| Action::new(ActionType::DeleteFile { path: p.to_string(), backup: true }, String::new());
    assert!(!delete("repo/.git/config").is_safe());
    assert!(!delete("web/package.json").is_safe());
    assert!(!delete("app/.env").is_safe());
    assert!(delete("app/.envrc").is_safe());
    assert!(delete("notes.txt").is_safe());
    let run = |c: &str| Action::new(ActionType::RunCommand { command: c.to_string(), working_dir: "/".to_string() }, String::new());
    assert!(!run("sudo mkfs.ext4 /dev/sda").is_safe());
    assert!(!run("dd if=/dev/zero of=/dev/sda").is_safe());
    assert!(run("ls -la").is_safe());
}

#[test]
fn decisions_and_results_record_their_parts() {
    let action = Action::new(ActionType::RunTests { suite: "it".to_string() }, "Run it".to_string())
        .for_goal(5)
        .with_expected_value(3.0f64.to_bits());
    assert_eq!(action.goal_id, Some(5));
    assert_eq!(f64::from_bits(action.expected_value), 1.0);
    assert_eq!(ActionDecision::approve(&action).reason, "Action approved: Run it");
    let alt = ActionDecision::propose_alternative(&action, "too slow".to_string(), vec![]);
    assert_eq!(alt.reason, "Rejected 'Run it': too slow");
    assert_eq!(alt.decision_type, DecisionType::ProposeAlternative);
    let later = ActionDecision::defer("busy".to_string(), std::time::Duration::from_secs(3));
    assert_eq!(later.retry_after, Some(std::time::Duration::from_secs(3)));
    assert_eq!(ActionDecision::skip("low value".to_string()).decision_type, DecisionType::Skip);
    let result = ActionResult::success(1, String::new(), 0).with_change(Change::CommandExecuted { command: "ls".to_string(), exit_code: 0 });
    assert_eq!(result.changes.len(), 1);
}
