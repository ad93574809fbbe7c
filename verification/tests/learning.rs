use sentinel_core::action::ActionType as Kind;
use sentinel_core::learning::{classify_goal, classify_goal_types, ActionType, GoalType};

fn kind(d: &str) -> GoalType {
    classify_goal(&d.to_string())
}

#[test]
fn goals_are_classified_by_first_matching_keyword() {
    assert_eq!(kind("Fix the login BUG"), GoalType::BugFix);
    assert_eq!(kind("Write tests for parser"), GoalType::Testing);
    assert_eq!(kind("Refactor module layout"), GoalType::Refactoring);
    assert_eq!(kind("OAuth flow"), GoalType::Authentication);
    assert_eq!(kind("Expose REST API"), GoalType::Api);
    assert_eq!(kind("Migrate the DB schema"), GoalType::Database);
    assert_eq!(kind("Optimize startup"), GoalType::PerformanceOptimization);
    assert_eq!(kind("Harden security headers"), GoalType::Security);
    assert_eq!(kind("Billing page"), GoalType::Payment);
    assert_eq!(kind("New UI theme"), GoalType::Ui);
    assert_eq!(kind("Deploy to staging"), GoalType::Infrastructure);
    assert_eq!(kind("Document the CLI"), GoalType::Documentation);
    assert_eq!(kind("Add export feature"), GoalType::FeatureImplementation);
    // "fix" wins over "test" and "api".
    assert_eq!(kind("fix api tests"), GoalType::BugFix);
}

#[test]
fn actions_are_recorded_by_kind_and_language() {
    let create = |p: &str| Kind::CreateFile { path: p.to_string(), content: String::new() };
    assert_eq!(
        ActionType::from_action(create("src/main.rs")),
        ActionType::CreateFile { language: "rs".to_string() }
    );
    assert_eq!(
        ActionType::from_action(create("dist/app.tar.gz")),
        ActionType::CreateFile { language: "gz".to_string() }
    );
    assert_eq!(
        ActionType::from_action(create(".bashrc")),
        ActionType::CreateFile { language: "unknown".to_string() }
    );
    assert_eq!(
        ActionType::from_action(Kind::EditFile {
            path: "Makefile".to_string(),
            old_content: String::new(),
            new_content: String::new(),
        }),
        ActionType::EditFile { language: "unknown".to_string() }
    );
    assert_eq!(
        ActionType::from_action(Kind::DeleteFile { path: "a.py".to_string(), backup: true }),
        ActionType::DeleteFile
    );
    assert_eq!(
        ActionType::from_action(Kind::Custom { name: "lint".to_string(), payload: serde_json::Value::Null }),
        ActionType::Custom { name: "lint".to_string() }
    );
}

#[test]
fn root_goals_are_filed_by_api_mention() {
    assert_eq!(classify_goal_types(&"Build REST API".to_string()), vec![GoalType::Api]);
    assert_eq!(classify_goal_types(&"Build a CLI".to_string()), vec![GoalType::FeatureImplementation]);
}
