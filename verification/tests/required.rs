use sentinel_core::alignment::UncertaintyModel;
use sentinel_core::compaction::engine::{ChatMessage, CompressionStrategy, MessageRole};
use sentinel_core::compaction::frames::FrameContent;
use sentinel_core::execution::ExecutionNorthStar;

#[test]
fn test_uncertainty_models() {
    let _optimistic = UncertaintyModel::Optimistic;
    let _realistic = UncertaintyModel::Realistic;
    let _pessimistic = UncertaintyModel::Pessimistic;
}

#[test]
fn north_star_validation_requires_all_axes() {
    let valid = ExecutionNorthStar {
        where_we_are: "Current repo state analyzed".to_string(),
        where_we_must_go: "Deliver aligned feature".to_string(),
        how: "Validated hierarchical plan".to_string(),
        why: "Increase alignment while preserving invariants".to_string(),
        constraints: vec![],
    };
    assert!(valid.validate().is_ok());

    let invalid = ExecutionNorthStar {
        how: String::new(),
        ..valid
    };
    assert!(invalid.validate().is_err());
}

#[test]
fn test_message_token_estimation() {
    let msg = ChatMessage::new(MessageRole::User, "Hello world".to_string());
    // 11 bytes / 4 = 2 tokens (integer division)
    assert_eq!(msg.estimated_tokens(), 2);
}

#[test]
fn test_compaction_strategy_levels() {
    let l0 = CompressionStrategy::l0();
    assert_eq!(l0.max_key_points, 10);
    assert!(l0.preserve_outcomes);

    let l1 = CompressionStrategy::l1();
    assert_eq!(l1.max_key_points, 5);
    assert!(l1.preserve_outcomes);

    let l2 = CompressionStrategy::l2();
    assert_eq!(l2.max_key_points, 3);
    assert!(!l2.preserve_outcomes);
}

#[test]
fn test_frame_content_validation() {
    let valid = FrameContent::new(
        "Test summary".to_string(),
        vec!["Point 1".to_string(), "Point 2".to_string()],
    );
    assert!(valid.is_valid());

    let invalid = FrameContent::new("Test".to_string(), vec!["A".to_string(); 6]);
    assert!(!invalid.is_valid());
}
