use sentinel_core::memory::{MemoryItem, MemoryOrigin, MemoryType};
use sentinel_core::working::WorkingMemory;

#[test]
fn test_working_memory_creation() {
    let wm = WorkingMemory::new();
    assert_eq!(wm.capacity(), 10);
    assert_eq!(wm.len(), 0);
    assert!(wm.is_empty());
}

#[test]
fn test_working_memory_store() {
    let mut wm = WorkingMemory::new();
    let item = MemoryItem::new("Test memory".to_string(), MemoryType::Action);
    let id = item.id;
    let evicted = wm.store(item);
    assert!(evicted.is_none());
    assert_eq!(wm.len(), 1);
    assert!(wm.contains(&id));
}

#[test]
fn test_lru_eviction() {
    let mut wm = WorkingMemory::with_capacity(3);
    let item1 = MemoryItem::new("Memory 1".to_string(), MemoryType::Action);
    let item2 = MemoryItem::new("Memory 2".to_string(), MemoryType::Action);
    let item3 = MemoryItem::new("Memory 3".to_string(), MemoryType::Action);
    let item4 = MemoryItem::new("Memory 4".to_string(), MemoryType::Action);
    let id1 = item1.id;
    wm.store(item1);
    wm.store(item2);
    wm.store(item3);
    let evicted = wm.store(item4);
    assert!(evicted.is_some());
    assert_eq!(evicted.unwrap().id, id1);
    assert_eq!(wm.len(), 3);
    assert!(!wm.contains(&id1));
}

#[test]
fn test_get_updates_lru() {
    let mut wm = WorkingMemory::with_capacity(3);
    let item1 = MemoryItem::new("Memory 1".to_string(), MemoryType::Action);
    let item2 = MemoryItem::new("Memory 2".to_string(), MemoryType::Action);
    let item3 = MemoryItem::new("Memory 3".to_string(), MemoryType::Action);
    let id1 = item1.id;
    let id2 = item2.id;
    wm.store(item1);
    wm.store(item2);
    wm.store(item3);
    wm.get(&id1);
    let lru = wm.peek_lru().unwrap();
    assert_eq!(lru.id, id2);
}

#[test]
fn test_peek_lru_mru() {
    let mut wm = WorkingMemory::new();
    let item1 = MemoryItem::new("First".to_string(), MemoryType::Action);
    let item2 = MemoryItem::new("Second".to_string(), MemoryType::Action);
    let id1 = item1.id;
    let id2 = item2.id;
    wm.store(item1);
    wm.store(item2);
    assert_eq!(wm.peek_lru().unwrap().id, id1);
    assert_eq!(wm.peek_mru().unwrap().id, id2);
}

#[test]
fn test_clear() {
    let mut wm = WorkingMemory::new();
    wm.store(MemoryItem::new("Test".to_string(), MemoryType::Action));
    assert_eq!(wm.len(), 1);
    wm.clear();
    assert_eq!(wm.len(), 0);
    assert!(wm.is_empty());
}

#[test]
fn test_get_all_ordered() {
    let mut wm = WorkingMemory::new();
    wm.store(MemoryItem::new("First".to_string(), MemoryType::Action));
    wm.store(MemoryItem::new("Second".to_string(), MemoryType::Action));
    wm.store(MemoryItem::new("Third".to_string(), MemoryType::Action));
    let all = wm.get_all();
    assert_eq!(all.len(), 3);
    assert_eq!(all[0].content, "Third");
    assert_eq!(all[2].content, "First");
}

#[test]
fn storing_a_held_item_again_counts_an_access() {
    let mut wm = WorkingMemory::with_capacity(2);
    let a = MemoryItem::new("A".to_string(), MemoryType::Insight);
    let b = MemoryItem::new("B".to_string(), MemoryType::Insight);
    let id_a = a.id;
    let again = MemoryItem { id: id_a, content: "A2".to_string(), ..MemoryItem::new(String::new(), MemoryType::Code) };
    wm.store(a);
    wm.store(b);
    assert!(wm.store(again).is_none());
    assert_eq!(wm.len(), 2);
    let mru = wm.peek_mru().unwrap();
    assert_eq!(mru.id, id_a);
    assert_eq!(mru.content, "A2");
    assert_eq!(mru.access_count, 1);
}

#[test]
fn zero_capacity_still_keeps_the_newest_item() {
    let mut wm = WorkingMemory::with_capacity(0);
    let a = MemoryItem::new("A".to_string(), MemoryType::Action);
    let b = MemoryItem::new("B".to_string(), MemoryType::Action);
    let id_a = a.id;
    assert!(wm.store(a).is_none());
    assert_eq!(wm.len(), 1);
    let evicted = wm.store(b).unwrap();
    assert_eq!(evicted.id, id_a);
    assert_eq!(wm.len(), 1);
}

#[test]
fn get_of_missing_item_changes_nothing() {
    let mut wm = WorkingMemory::new();
    let a = MemoryItem::new("A".to_string(), MemoryType::Action);
    let id_a = a.id;
    wm.store(a);
    assert!(wm.get(&(id_a ^ 1)).is_none());
    let got = wm.get(&id_a).unwrap();
    assert_eq!(got.access_count, 1);
}

#[test]
fn query_matches_content_and_tags_in_lowercase() {
    let mut wm = WorkingMemory::new();
    let item1 = MemoryItem::builder()
        .content("Implemented authentication".to_string())
        .memory_type(MemoryType::Action)
        .tag("auth".to_string())
        .build()
        .unwrap();
    let item2 = MemoryItem::builder()
        .content("Fixed database bug".to_string())
        .memory_type(MemoryType::Action)
        .tag("AuthZ".to_string())
        .build()
        .unwrap();
    let id1 = item1.id;
    let id2 = item2.id;
    wm.store(item1);
    wm.store(item2);
    assert_eq!(wm.query_matches(&"AUTHENTICATION".to_string()), vec![id1]);
    assert_eq!(wm.query_matches(&"auth".to_string()), vec![id1, id2]);
    assert!(wm.query_matches(&"network".to_string()).is_empty());
    let all = wm.get_all();
    assert_eq!(all[1].access_count, 2);
    assert_eq!(all[0].access_count, 1);
}

#[test]
fn builder_requires_content_and_type() {
    let missing_content = MemoryItem::builder().memory_type(MemoryType::Action).build();
    assert_eq!(missing_content.err().unwrap(), "content is required");
    let missing_type = MemoryItem::builder().content("x".to_string()).build();
    assert_eq!(missing_type.err().unwrap(), "memory_type is required");
}

#[test]
fn builder_clamps_and_defaults() {
    let item = MemoryItem::builder()
        .content("x".to_string())
        .memory_type(MemoryType::Decision)
        .importance(1.7f64.to_bits())
        .confidence((-0.2f64).to_bits())
        .origin(MemoryOrigin::UserInput)
        .build()
        .unwrap();
    assert_eq!(f64::from_bits(item.importance), 1.0);
    assert_eq!(f64::from_bits(item.confidence), 0.0);
    assert_eq!(item.origin, MemoryOrigin::UserInput);
    assert_eq!(item.last_verified_at, Some(item.created_at));
    let plain = MemoryItem::builder().content("y".to_string()).memory_type(MemoryType::Code).build().unwrap();
    assert_eq!(f64::from_bits(plain.importance), 0.5);
    assert_eq!(plain.origin, MemoryOrigin::SystemDerived);
    assert!(plain.metadata.is_null());
}

#[test]
fn expiry_and_verification() {
    let mut item = MemoryItem::builder()
        .content("x".to_string())
        .memory_type(MemoryType::Observation)
        .expires_at(1_000)
        .build()
        .unwrap();
    assert!(item.is_expired_at(1_001));
    assert!(!item.is_expired_at(1_000));
    assert!(item.is_expired());
    assert!(!item.is_active());
    item.mark_verified(Some(2.5f64.to_bits()));
    assert_eq!(f64::from_bits(item.confidence), 1.0);
    let fresh = MemoryItem::new("y".to_string(), MemoryType::Action);
    assert!(fresh.is_active());
}

#[test]
fn test_memory_item_creation() {
    let item = MemoryItem::new("Test memory".to_string(), MemoryType::Action);
    assert_eq!(item.content, "Test memory");
    assert_eq!(item.memory_type, MemoryType::Action);
    assert_eq!(item.access_count, 0);
    assert_eq!(f64::from_bits(item.importance), 0.5);
    assert_eq!(f64::from_bits(item.confidence), 0.5);
    assert_eq!(item.origin, MemoryOrigin::SystemDerived);
    assert!(item.is_active());
}

#[test]
fn test_memory_item_builder() {
    let goal_id: u128 = 0xabcdef;
    let item = MemoryItem::builder()
        .content("Built feature".to_string())
        .memory_type(MemoryType::Success)
        .importance(0.9f64.to_bits())
        .goal_id(goal_id)
        .tag("authentication".to_string())
        .build()
        .unwrap();
    assert_eq!(item.content, "Built feature");
    assert_eq!(f64::from_bits(item.importance), 0.9);
    assert_eq!(item.goal_ids.len(), 1);
    assert_eq!(item.tags.len(), 1);
}

#[test]
fn test_memory_access() {
    let mut item = MemoryItem::new("Test".to_string(), MemoryType::Observation);
    let initial_time = item.last_accessed;
    let start = std::time::Instant::now();
    while start.elapsed() < std::time::Duration::from_millis(10) {}
    item.access();
    assert_eq!(item.access_count, 1);
    assert!(item.last_accessed > initial_time);
}

#[test]
fn absorbing_a_duplicate_adds_counts_and_new_tags() {
    let mut keep = MemoryItem::new("Kept".to_string(), MemoryType::Action);
    keep.access_count = 3;
    keep.tags = vec!["a".to_string(), "b".to_string()];
    keep.goal_ids = vec![1, 2];
    let mut other = MemoryItem::new("Other".to_string(), MemoryType::Action);
    other.access_count = 4;
    other.tags = vec!["b".to_string(), "c".to_string(), "c".to_string()];
    other.goal_ids = vec![2, 3];
    let id = keep.id;
    keep.absorb(&other);
    assert_eq!(keep.access_count, 7);
    assert_eq!(keep.tags, vec!["a".to_string(), "b".to_string(), "c".to_string()]);
    assert_eq!(keep.goal_ids, vec![1, 2, 3]);
    assert_eq!(keep.id, id);
    assert_eq!(keep.content, "Kept");
}
