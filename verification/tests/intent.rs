use sentinel_core::intent::{
    check_constraint_violation, is_directly_related, violates_technical_constraint, AlignmentTrend,
    Constraint, ConstraintSeverity, ConstraintType, ConstraintViolation, DriftConfig, GuardrailAction,
    IntentAnchor,
};

#[test]
fn test_intent_anchor_creation() {
    let anchor = IntentAnchor::from_intent("Build a secure task management API in Rust".to_string());
    assert!(!anchor.anchor_id.is_empty());
    assert!(!anchor.integrity_hash.is_empty());
    assert!(anchor.verify_integrity());
    let has_security = anchor.constraints.iter().any(|c| c.constraint_type == ConstraintType::Security);
    assert!(has_security);
}

#[test]
fn test_intent_anchor_integrity() {
    let anchor = IntentAnchor::from_intent("Test intent".to_string());
    assert!(anchor.verify_integrity());
    let mut tampered = anchor.clone();
    tampered.original_intent = "Tampered".to_string();
    assert!(!tampered.verify_integrity());
}

#[test]
fn anchor_constraints_follow_the_text() {
    let anchor = IntentAnchor::from_intent("A FAST TypeScript service with Authentication".to_string());
    let kinds: Vec<ConstraintType> = anchor.constraints.iter().map(|c| c.constraint_type).collect();
    assert_eq!(kinds, vec![ConstraintType::Technical, ConstraintType::Security, ConstraintType::Performance]);
    assert_eq!(anchor.constraints[2].severity, ConstraintSeverity::High);
    assert_eq!(anchor.constraints[0].description, "Use specified programming language");
    assert_eq!(anchor.constraints[0].id.len(), 36);
    assert!(IntentAnchor::from_intent("write docs".to_string()).constraints.is_empty());
    assert_eq!(anchor.success_criteria.len(), 1);
    assert!(anchor.success_criteria[0].is_mandatory);
    let expected = blake3::Hasher::new()
        .update(anchor.original_intent.as_bytes())
        .update(anchor.anchor_id.as_bytes())
        .finalize()
        .to_hex()
        .to_string();
    assert_eq!(anchor.integrity_hash, expected);
}

#[test]
fn constraint_checks() {
    let security = Constraint {
        id: "s".to_string(),
        description: "Implement security best practices".to_string(),
        constraint_type: ConstraintType::Security,
        severity: ConstraintSeverity::Critical,
    };
    assert_eq!(
        check_constraint_violation(&"Add HARDCODED password for testing".to_string(), &security),
        Some("Hardcoded passwords violate security requirements".to_string())
    );
    assert_eq!(
        check_constraint_violation(&"disable TLS verification".to_string(), &security),
        Some("Disabling verification compromises security".to_string())
    );
    assert_eq!(check_constraint_violation(&"add tests".to_string(), &security), None);
    let tech = Constraint {
        id: "t".to_string(),
        description: "Use Rust".to_string(),
        constraint_type: ConstraintType::Technical,
        severity: ConstraintSeverity::Critical,
    };
    assert_eq!(check_constraint_violation(&"hardcoded password".to_string(), &tech), None);
    assert!(violates_technical_constraint(&"Add Python script".to_string(), &tech));
    assert!(!violates_technical_constraint(&"Add Python script".to_string(), &security));
    assert!(is_directly_related(&"Implement login".to_string(), &"IMPLEMENT auth".to_string()));
    assert!(!is_directly_related(&"Implement login".to_string(), &"Design auth".to_string()));
}

fn violation(severity: ConstraintSeverity) -> ConstraintViolation {
    ConstraintViolation {
        constraint_id: "c".to_string(),
        constraint_description: "d".to_string(),
        severity,
        violation_details: "x".to_string(),
    }
}

#[test]
fn security_violation_blocks_the_action() {
    let anchor = IntentAnchor::from_intent("Build secure API".to_string());
    let violations = anchor.detect_violations(&"Add hardcoded password for testing".to_string(), false);
    assert_eq!(violations.len(), 1);
    assert_eq!(violations[0].severity, ConstraintSeverity::Critical);
    assert_eq!(violations[0].violation_details, "Hardcoded passwords violate security requirements");
    assert_eq!(violations[0].constraint_description, "Implement security best practices");
    let config = DriftConfig::default();
    let action = config.determine_action(95.0f64.to_bits(), &violations, AlignmentTrend::Stable, 0.0f64.to_bits());
    assert_eq!(action, GuardrailAction::Block);
}

#[test]
fn scope_creep_is_reported_last() {
    let anchor = IntentAnchor::from_intent("Build a todo app".to_string());
    let violations = anchor.detect_violations(&"Rewrite the kernel".to_string(), true);
    let last = violations.last().unwrap();
    assert_eq!(last.constraint_id, "scope");
    assert_eq!(last.constraint_description, "Stay within defined scope");
    assert_eq!(last.severity, ConstraintSeverity::High);
    assert_eq!(last.violation_details, "Action appears to be outside defined scope");
    assert!(anchor.detect_violations(&"Rewrite the kernel".to_string(), false).is_empty());
}

#[test]
fn guardrail_actions_follow_score_trend_and_deviation() {
    let c = DriftConfig::default();
    assert_eq!(f64::from_bits(c.block_threshold), 50.0);
    assert_eq!(f64::from_bits(c.warn_threshold), 80.0);
    assert_eq!(f64::from_bits(c.max_path_deviation), 0.3);
    assert_eq!(c.consecutive_violations_before_escalation, 3);
    let none: Vec<ConstraintViolation> = vec![];
    let s = |x: f64| x.to_bits();
    assert_eq!(c.determine_action(s(40.0), &none, AlignmentTrend::Stable, s(0.0)), GuardrailAction::Block);
    assert_eq!(c.determine_action(s(55.0), &none, AlignmentTrend::Critical, s(0.0)), GuardrailAction::Escalate);
    assert_eq!(c.determine_action(s(55.0), &none, AlignmentTrend::Stable, s(0.0)), GuardrailAction::Warn);
    assert_eq!(c.determine_action(s(85.0), &none, AlignmentTrend::Stable, s(0.5)), GuardrailAction::Warn);
    assert_eq!(c.determine_action(s(85.0), &none, AlignmentTrend::Stable, s(0.1)), GuardrailAction::Suggest);
    assert_eq!(
        c.determine_action(s(95.0), &vec![violation(ConstraintSeverity::Low)], AlignmentTrend::Stable, s(0.1)),
        GuardrailAction::Suggest
    );
    assert_eq!(c.determine_action(s(95.0), &none, AlignmentTrend::Improving, s(0.1)), GuardrailAction::Allow);
    assert_eq!(
        c.determine_action(s(95.0), &vec![violation(ConstraintSeverity::Critical)], AlignmentTrend::Stable, s(0.0)),
        GuardrailAction::Block
    );
}
