use sentinel_core::compaction::engine::{
    ChatHistory, ChatMessage, ChatTurn, CompactionEngine, MessageFlag, MessageRole, TurnType,
};
use sentinel_core::compaction::frames::{
    AnchorRef, CompressionLevel, FrameContent, FrameType, PinnedLightweightTranscript, SummaryFrame,
};
use sentinel_core::compaction::policy::{
    CompactionConfig, CompactionEvent, CompactionTrigger, CompressionTarget, TriggerReason,
};

const MINUTE_MS: i64 = 60 * 1000;

#[test]
fn test_compaction_engine_creation() {
    let config = CompactionConfig::default();
    let engine = CompactionEngine::new(config);
    assert_eq!(engine.compression_strategy.max_key_points, 5);
}

#[test]
fn test_chat_history() {
    let mut history = ChatHistory::new("test-run".to_string());
    assert_eq!(history.turns.len(), 0);

    let turn = ChatTurn::new(1, vec![ChatMessage::new(MessageRole::User, "Hello".to_string())]);
    history.add_turn(turn);

    assert_eq!(history.turns.len(), 1);
}

#[test]
fn test_chat_turn_flags() {
    let mut turn = ChatTurn::new(
        1,
        vec![ChatMessage::new(MessageRole::Assistant, "Fixed the bug".to_string())],
    );

    assert!(!turn.is_error());
    assert!(!turn.is_decision());

    turn.turn_type = TurnType::Error;
    assert!(turn.is_error());
}

#[test]
fn test_plt_creation() {
    let plt = PinnedLightweightTranscript::new("test-run".to_string());
    assert_eq!(plt.run_id, "test-run");
    assert_eq!(plt.frames.len(), 0);
    assert_eq!(plt.anchors.len(), 0);
}

#[test]
fn test_summary_frame_creation() {
    let content = FrameContent::new(
        "Implemented authentication".to_string(),
        vec!["Added JWT token validation".to_string(), "Created login endpoint".to_string()],
    );

    let frame = SummaryFrame::new(FrameType::Summary, content, (1, 5));

    assert_eq!(frame.turn_range, (1, 5));
    assert!(frame.token_estimate > 0);
}

#[test]
fn test_anchor_ref_creation() {
    let anchor = AnchorRef::new(42, 0.95f64.to_bits(), "intent://local/turn/42".to_string());

    assert_eq!(anchor.turn_number, 42);
    assert_eq!(f64::from_bits(anchor.relevance_score), 0.95);
    assert_eq!(anchor.jump_uri, "intent://local/turn/42");
}

#[test]
fn test_frame_contains_turn() {
    let content = FrameContent::new("Test".to_string(), vec!["Point".to_string()]);
    let frame = SummaryFrame::new(FrameType::Summary, content, (10, 20));

    assert!(frame.contains_turn(10));
    assert!(frame.contains_turn(15));
    assert!(frame.contains_turn(20));
    assert!(!frame.contains_turn(9));
    assert!(!frame.contains_turn(21));
}

#[test]
fn test_plt_add_frame() {
    let mut plt = PinnedLightweightTranscript::new("test".to_string());
    let content = FrameContent::new("Test".to_string(), vec!["Point".to_string()]);
    let frame = SummaryFrame::new(FrameType::Summary, content, (1, 5));

    plt.add_frame(frame);

    assert_eq!(plt.frames.len(), 1);
    assert_eq!(plt.metadata.total_turns, 5);
}

#[test]
fn test_default_config() {
    let config = CompactionConfig::default();
    assert_eq!(config.max_turns, 100);
    assert_eq!(config.max_memory_bytes, 10 * 1024 * 1024);
}

#[test]
fn test_memory_constrained_config() {
    let config = CompactionConfig::memory_constrained();
    assert_eq!(config.max_turns, 50);
    assert_eq!(config.max_memory_bytes, 5 * 1024 * 1024);
    assert_eq!(config.target_compression_level, CompressionTarget::L2);
}

#[test]
fn test_turn_count_trigger() {
    let config = CompactionConfig::default();
    let trigger = CompactionTrigger::from_config(&config);

    assert!(!trigger.should_trigger_turn_count(50));
    assert!(trigger.should_trigger_turn_count(100));
    assert!(trigger.should_trigger_turn_count(150));
}

#[test]
fn test_time_trigger() {
    let mut config = CompactionConfig::default();
    config.max_duration = 30 * MINUTE_MS;
    let trigger = CompactionTrigger::from_config(&config);

    let now = chrono::Utc::now().timestamp_millis();
    let twenty_min_later = now + 20 * MINUTE_MS;
    let forty_min_later = now + 40 * MINUTE_MS;

    assert!(!trigger.should_trigger_time(twenty_min_later));
    assert!(trigger.should_trigger_time(forty_min_later));
}

#[test]
fn test_memory_trigger() {
    let mut config = CompactionConfig::default();
    config.max_memory_bytes = 10 * 1024 * 1024;
    let trigger = CompactionTrigger::from_config(&config);

    assert!(!trigger.should_trigger_memory(5 * 1024 * 1024));
    assert!(trigger.should_trigger_memory(10 * 1024 * 1024));
    assert!(trigger.should_trigger_memory(15 * 1024 * 1024));
}

#[test]
fn test_event_trigger() {
    let mut config = CompactionConfig::default();
    config.enable_event_triggers = true;
    let trigger = CompactionTrigger::from_config(&config);

    assert!(trigger.should_trigger_event(CompactionEvent::TaskComplete));
    assert!(trigger.should_trigger_event(CompactionEvent::ContextSwitch));
    assert!(!trigger.should_trigger_event(CompactionEvent::Error));
    assert!(!trigger.should_trigger_event(CompactionEvent::Decision));
}

#[test]
fn test_event_triggers_disabled() {
    let mut config = CompactionConfig::default();
    config.enable_event_triggers = false;
    let trigger = CompactionTrigger::from_config(&config);

    assert!(!trigger.should_trigger_event(CompactionEvent::TaskComplete));
    assert!(!trigger.should_trigger_event(CompactionEvent::ContextSwitch));
}

#[test]
fn test_reset() {
    let config = CompactionConfig::default();
    let mut trigger = CompactionTrigger::from_config(&config);

    trigger.reset(100, chrono::Utc::now().timestamp_millis());

    assert_eq!(trigger.last_compaction_turn, 100);
}

#[test]
fn message_error_detection_is_case_insensitive() {
    let msg = ChatMessage::new(MessageRole::Assistant, "An ERROR occurred".to_string());
    assert!(msg.is_error());
    let mut flagged = ChatMessage::new(MessageRole::User, "all good".to_string());
    assert!(!flagged.is_error());
    flagged.metadata.message_flags.push(MessageFlag::Error);
    assert!(flagged.is_error());
    flagged.metadata.message_flags.push(MessageFlag::Milestone);
    assert!(flagged.is_milestone());
    assert!(!flagged.is_decision());
}

#[test]
fn token_estimates_sum() {
    let mut history = ChatHistory::new("r".to_string());
    history.add_turn(ChatTurn::new(
        1,
        vec![
            ChatMessage::new(MessageRole::User, "12345678".to_string()),
            ChatMessage::new(MessageRole::Assistant, "1234567".to_string()),
        ],
    ));
    history.add_turn(ChatTurn::new(2, vec![ChatMessage::new(MessageRole::User, "abcd".to_string())]));
    // 8/4 + 7/4 = 3, then + 4/4
    assert_eq!(history.turns[0].estimated_tokens(), 3);
    assert_eq!(history.estimated_tokens(), 4);
    // Multi-byte characters count by bytes: "é" is two bytes.
    assert_eq!(ChatMessage::new(MessageRole::User, "éééé".to_string()).estimated_tokens(), 2);
}

#[test]
fn memory_budget_by_level() {
    assert!(CompressionLevel::L0.meets_memory_budget(100, 100));
    assert!(!CompressionLevel::L0.meets_memory_budget(101, 100));
    assert!(CompressionLevel::L1.meets_memory_budget(1009, 100));
    assert!(!CompressionLevel::L1.meets_memory_budget(1010, 100));
    assert!(CompressionLevel::L2.meets_memory_budget(4039, 100));
    assert!(!CompressionLevel::L2.meets_memory_budget(4040, 100));
    assert_eq!(CompressionTarget::L2.to_level(), CompressionLevel::L2);
}

#[test]
fn trigger_order_turns_then_time_then_memory() {
    let config = CompactionConfig::default();
    let mut trigger = CompactionTrigger::from_config(&config);
    trigger.reset(0, 0);
    match trigger.should_trigger(100, 40 * MINUTE_MS, 20 * 1024 * 1024) {
        Some(TriggerReason::TurnCount { current, threshold }) => {
            assert_eq!((current, threshold), (100, 100))
        }
        _ => panic!("expected the turn count"),
    }
    match trigger.should_trigger(10, 40 * MINUTE_MS, 20 * 1024 * 1024) {
        Some(TriggerReason::TimeElapsed { elapsed, threshold }) => {
            assert_eq!((elapsed, threshold), (40 * MINUTE_MS, 30 * MINUTE_MS))
        }
        _ => panic!("expected the elapsed time"),
    }
    assert!(matches!(
        trigger.should_trigger(10, MINUTE_MS, 20 * 1024 * 1024),
        Some(TriggerReason::MemoryUsage { .. })
    ));
    assert!(trigger.should_trigger(10, MINUTE_MS, 1024).is_none());
}

#[test]
fn frame_content_sentence_limit() {
    let two = FrameContent::new("One. Two!".to_string(), vec!["p".to_string()]);
    assert!(two.is_valid());
    let three = FrameContent::new("One. Two! Three.".to_string(), vec!["p".to_string()]);
    assert!(!three.is_valid());
    let none = FrameContent::new("Summary".to_string(), vec![]);
    assert!(!none.is_valid());
    let with = FrameContent::new("S".to_string(), vec!["p".to_string()]).with_outcome("done".to_string());
    assert_eq!(with.outcome, Some("done".to_string()));
}

#[test]
fn anchor_relevance_is_clamped() {
    assert_eq!(f64::from_bits(AnchorRef::new(1, 1.5f64.to_bits(), String::new()).relevance_score), 1.0);
    assert_eq!(f64::from_bits(AnchorRef::new(1, (-0.5f64).to_bits(), String::new()).relevance_score), 0.0);
    assert!(f64::from_bits(AnchorRef::new(1, f64::NAN.to_bits(), String::new()).relevance_score).is_nan());
}

#[test]
fn total_tokens_sum_frames() {
    let mut plt = PinnedLightweightTranscript::new("t".to_string());
    plt.add_frame(SummaryFrame::new(
        FrameType::Summary,
        FrameContent::new("12345678".to_string(), vec!["1234".to_string()]),
        (1, 7),
    ));
    plt.add_frame(SummaryFrame::new(
        FrameType::Error,
        FrameContent::new("1234".to_string(), vec![]).with_outcome("12345678".to_string()),
        (2, 3),
    ));
    assert_eq!(plt.total_tokens(), 3 + 3);
    assert_eq!(plt.metadata.total_turns, 7);
}

/// The compression ratio as the transcript metadata computes it after a
/// compaction: original over compressed tokens, 1.0 when nothing is left.
fn compression_ratio_after(history: &ChatHistory, plt: &PinnedLightweightTranscript) -> f64 {
    let compressed = plt.total_tokens();
    if compressed > 0 {
        history.estimated_tokens() as f64 / compressed as f64
    } else {
        f64::from_bits(plt.metadata.compressed_ratio)
    }
}

fn compact_checked(engine: &CompactionEngine, history: &ChatHistory, current: u32) -> PinnedLightweightTranscript {
    assert!(engine.fits_compaction(history, current));
    engine.compact(history, current)
}

#[test]
fn test_full_compaction_flow() {
    let mut history = ChatHistory::new("test-run".to_string());
    for i in 1..=50 {
        let turn = ChatTurn::new(
            i,
            vec![
                ChatMessage::new(MessageRole::User, format!("User message {}", i)),
                ChatMessage::new(MessageRole::Assistant, format!("Assistant response {}", i)),
            ],
        );
        history.add_turn(turn);
    }
    let config = CompactionConfig::standard();
    let engine = CompactionEngine::new(config);
    let plt = compact_checked(&engine, &history, 50);
    assert_eq!(plt.frames.len(), 3);
    assert!(compression_ratio_after(&history, &plt) >= 1.0);
    assert_eq!(plt.metadata.total_turns, 50);
}

#[test]
fn test_memory_budget_compliance() {
    let mut history = ChatHistory::new("budget-test".to_string());
    for i in 1..=1000 {
        let turn = ChatTurn::new(
            i,
            vec![ChatMessage::new(MessageRole::User, "Test message with some content".to_string())],
        );
        history.add_turn(turn);
    }
    let config = CompactionConfig::memory_constrained();
    let engine = CompactionEngine::new(config);
    let plt = compact_checked(&engine, &history, 1000);
    let estimated_bytes = plt.frames.len() * 150;
    assert!(estimated_bytes < 1_500_000, "Memory budget exceeded");
}

#[test]
fn mod_test_compression_levels() {
    let mut history = ChatHistory::new("levels-test".to_string());
    for i in 1..=100 {
        let turn = ChatTurn::new(
            i,
            vec![ChatMessage::new(MessageRole::User, "Test message for compression".to_string())],
        );
        history.add_turn(turn);
    }
    let engine_l0 = CompactionEngine::new(CompactionConfig::high_quality());
    let plt_l0 = compact_checked(&engine_l0, &history, 100);
    let engine_l1 = CompactionEngine::new(CompactionConfig::standard());
    let plt_l1 = compact_checked(&engine_l1, &history, 100);
    let engine_l2 = CompactionEngine::new(CompactionConfig::memory_constrained());
    let plt_l2 = compact_checked(&engine_l2, &history, 100);
    assert!(plt_l0.frames.len() >= plt_l1.frames.len());
    assert!(plt_l1.frames.len() >= plt_l2.frames.len());
}

#[test]
fn test_anchor_extraction() {
    let mut history = ChatHistory::new("anchors-test".to_string());
    for i in 1..=20 {
        let mut turn = ChatTurn::new(
            i,
            vec![ChatMessage::new(MessageRole::Assistant, format!("Response {}", i))],
        );
        if i % 5 == 0 {
            turn.turn_type = TurnType::Decision;
        }
        history.add_turn(turn);
    }
    let engine = CompactionEngine::new(CompactionConfig::standard());
    let plt = compact_checked(&engine, &history, 20);
    assert!(!plt.anchors.is_empty());
    assert!(plt.anchors.len() <= 4);
}

#[test]
fn compaction_frames_and_anchors_in_detail() {
    let mut history = ChatHistory::new("detail".to_string());
    for i in 1..=7 {
        let text = if i == 3 {
            "We decided to use Postgres for storage".to_string()
        } else if i == 6 {
            "The migration is complete and all tests pass".to_string()
        } else {
            format!("step {}", i)
        };
        let mut turn = ChatTurn::new(i, vec![ChatMessage::new(MessageRole::Assistant, text)]);
        if i == 4 {
            turn.turn_type = TurnType::Milestone;
        }
        history.add_turn(turn);
    }
    // L0: runs close every five turns
    let engine = CompactionEngine::new(CompactionConfig::high_quality());
    let plt = compact_checked(&engine, &history, 7);
    assert_eq!(plt.run_id, "detail");
    assert_eq!(plt.frames.len(), 2);
    assert_eq!(plt.frames[0].turn_range, (0, 5));
    assert_eq!(plt.frames[1].turn_range, (6, 7));
    assert_eq!(plt.frames[0].frame_type, FrameType::Milestone);
    assert_eq!(plt.frames[1].frame_type, FrameType::Summary);
    assert_eq!(
        plt.frames[0].content.summary,
        "step 1 step 2 We decided to use Postgres for storage"
    );
    assert_eq!(
        plt.frames[0].content.key_points,
        vec!["We decided to use Postgres for storage".to_string()]
    );
    assert_eq!(plt.frames[0].content.outcome, None);
    assert_eq!(
        plt.frames[1].content.outcome,
        Some("The migration is complete and all tests pass".to_string())
    );
    assert_eq!(plt.metadata.total_turns, 7);
    assert_eq!(plt.metadata.compression_level, CompressionLevel::L0);
    assert_eq!(plt.anchors.len(), 1);
    assert_eq!(plt.anchors[0].turn_number, 4);
    assert_eq!(plt.anchors[0].jump_uri, "intent://local/turn/4");
    assert_eq!(f64::from_bits(plt.anchors[0].relevance_score), 0.85);
}

#[test]
fn compaction_stops_at_current_turn() {
    let mut history = ChatHistory::new("stop".to_string());
    for i in 1..=12 {
        let mut turn = ChatTurn::new(i, vec![ChatMessage::new(MessageRole::User, format!("m{}", i))]);
        turn.turn_type = TurnType::Error;
        history.add_turn(turn);
    }
    let engine = CompactionEngine::new(CompactionConfig::high_quality());
    let plt = compact_checked(&engine, &history, 8);
    assert_eq!(plt.frames.len(), 2);
    assert_eq!(plt.frames[1].turn_range, (6, 8));
    assert_eq!(plt.anchors.len(), 8);
    assert_eq!(f64::from_bits(plt.anchors[0].relevance_score), 0.95);
    assert_eq!(plt.frames[0].frame_type, FrameType::Error);
}

#[test]
fn long_messages_are_clipped_in_the_summary() {
    let mut history = ChatHistory::new("clip".to_string());
    let long = "alpha beta gamma delta epsilon zeta eta theta iota kappa lambda mu nu xi omicron pi rho sigma tau upsilon phi chi psi omega".to_string();
    history.add_turn(ChatTurn::new(1, vec![ChatMessage::new(MessageRole::User, long)]));
    // L2: summaries of at most 50 bytes
    let engine = CompactionEngine::new(CompactionConfig::memory_constrained());
    let plt = compact_checked(&engine, &history, 1);
    assert_eq!(plt.frames.len(), 1);
    assert_eq!(plt.frames[0].content.summary, "alpha beta gamma delta epsilon zeta eta theta...");
    assert_eq!(plt.frames[0].content.outcome, None);
}

#[test]
fn summary_clip_inside_a_character_is_refused() {
    let mut history = ChatHistory::new("utf8".to_string());
    // 49 ASCII bytes, then a two-byte character across the 50-byte limit
    let text = format!("{}é tail that makes it longer than fifty", "a".repeat(49));
    history.add_turn(ChatTurn::new(1, vec![ChatMessage::new(MessageRole::User, text)]));
    let engine = CompactionEngine::new(CompactionConfig::memory_constrained());
    assert!(!engine.fits_compaction(&history, 1));
}
