use sentinel_core::semantic::{
    ConceptNode, ConceptRelation, ConceptType, RelationType, SemanticMemory, DEFAULT_DECAY_RATE,
    FULL_ACTIVATION,
};

fn create_test_concept(name: &str) -> ConceptNode {
    ConceptNode {
        id: uuid::Uuid::new_v4().as_u128(),
        name: name.to_string(),
        description: format!("Description of {}", name),
        memory_ids: Vec::new(),
        concept_type: ConceptType::General,
        activation: 1.0f64.to_bits(),
    }
}

fn relation(from: u128, to: u128, relation_type: RelationType, strength: f64) -> ConceptRelation {
    ConceptRelation { from, to, relation_type, strength: strength.to_bits() }
}

#[test]
fn test_add_concept() {
    let mut sm = SemanticMemory::new();
    let concept = create_test_concept("Authentication");
    let id = concept.id;

    sm.add_concept(concept);
    assert_eq!(sm.len(), 1);
    assert!(sm.get_concept(id).is_some());
}

#[test]
fn test_get_concept_by_name() {
    let mut sm = SemanticMemory::new();
    let concept = create_test_concept("Authentication");

    sm.add_concept(concept);

    let found = sm.get_concept_by_name("authentication");
    assert!(found.is_some());
    assert_eq!(found.unwrap().name, "Authentication");
}

#[test]
fn test_add_relation() {
    let mut sm = SemanticMemory::new();

    let concept1 = create_test_concept("Login");
    let concept2 = create_test_concept("Authentication");
    let id1 = concept1.id;
    let id2 = concept2.id;

    sm.add_concept(concept1);
    sm.add_concept(concept2);

    sm.add_relation(relation(id1, id2, RelationType::PartOf, 0.9));

    let relations = sm.get_relations(id1);
    assert_eq!(relations.len(), 1);
}

#[test]
fn test_get_related_concepts() {
    let mut sm = SemanticMemory::new();

    let concept1 = create_test_concept("Login");
    let concept2 = create_test_concept("Authentication");
    let id1 = concept1.id;
    let id2 = concept2.id;

    sm.add_concept(concept1);
    sm.add_concept(concept2);

    sm.add_relation(relation(id1, id2, RelationType::PartOf, 0.9));

    let related = sm.get_related_concepts(id1);
    assert_eq!(related.len(), 1);
    assert_eq!(related[0].0.name, "Authentication");
}

#[test]
fn test_find_path() {
    let mut sm = SemanticMemory::new();

    let c1 = create_test_concept("A");
    let c2 = create_test_concept("B");
    let c3 = create_test_concept("C");

    let id1 = c1.id;
    let id2 = c2.id;
    let id3 = c3.id;

    sm.add_concept(c1);
    sm.add_concept(c2);
    sm.add_concept(c3);

    sm.add_relation(relation(id1, id2, RelationType::RelatedTo, 1.0));
    sm.add_relation(relation(id2, id3, RelationType::RelatedTo, 1.0));

    let path = sm.find_path(id1, id3, 5);
    assert!(path.is_some());
    assert_eq!(path.unwrap().len(), 3); // A -> B -> C
}

#[test]
fn new_memory_is_empty_and_decays_by_five_percent() {
    let sm = SemanticMemory::new();
    assert!(sm.is_empty());
    assert_eq!(sm.len(), 0);
    assert_eq!(f64::from_bits(sm.decay_rate()), 0.95);
    assert_eq!(sm.decay_rate(), DEFAULT_DECAY_RATE);
}

#[test]
fn added_concept_starts_at_full_activation() {
    let mut sm = SemanticMemory::new();
    let mut c = create_test_concept("Cache");
    c.activation = 0.25f64.to_bits();
    let id = c.id;
    sm.add_concept(c);
    assert_eq!(sm.get_concept(id).unwrap().activation, FULL_ACTIVATION);
    assert_eq!(f64::from_bits(FULL_ACTIVATION), 1.0);
}

#[test]
fn relation_to_unknown_concept_is_ignored() {
    let mut sm = SemanticMemory::new();
    let c = create_test_concept("Login");
    let id = c.id;
    sm.add_concept(c);
    sm.add_relation(relation(id, 42, RelationType::Uses, 0.5));
    assert!(sm.get_relations(id).is_empty());
    assert!(sm.get_related_concepts(id).is_empty());
}

#[test]
fn memory_ids_are_recorded_once() {
    let mut sm = SemanticMemory::new();
    let c = create_test_concept("Login");
    let id = c.id;
    sm.add_concept(c);
    sm.add_memory_to_concept(id, 7);
    sm.add_memory_to_concept(id, 7);
    sm.add_memory_to_concept(id, 9);
    sm.add_memory_to_concept(12345, 1);
    assert_eq!(sm.get_concept(id).unwrap().memory_ids, vec![7, 9]);
    assert_eq!(sm.len(), 1);
}

#[test]
fn find_path_respects_depth_and_takes_shortest_chain() {
    let mut sm = SemanticMemory::new();
    let ids: Vec<u128> = ["A", "B", "C", "D"]
        .iter()
        .map(|n| {
            let c = create_test_concept(n);
            let id = c.id;
            sm.add_concept(c);
            id
        })
        .collect();
    // A - B - C - D, and a shortcut D -> A taken backwards.
    sm.add_relation(relation(ids[0], ids[1], RelationType::DependsOn, 1.0));
    sm.add_relation(relation(ids[1], ids[2], RelationType::DependsOn, 1.0));
    sm.add_relation(relation(ids[2], ids[3], RelationType::DependsOn, 1.0));
    assert_eq!(sm.find_path(ids[0], ids[3], 3), Some(vec![ids[0], ids[1], ids[2], ids[3]]));
    assert_eq!(sm.find_path(ids[0], ids[3], 2), None);
    assert_eq!(sm.find_path(ids[3], ids[0], 5), Some(vec![ids[3], ids[2], ids[1], ids[0]]));
    sm.add_relation(relation(ids[3], ids[0], RelationType::Causes, 1.0));
    assert_eq!(sm.find_path(ids[0], ids[3], 2), Some(vec![ids[0], ids[3]]));
    assert_eq!(sm.find_path(ids[1], ids[1], 0), Some(vec![ids[1]]));
    assert_eq!(sm.find_path(ids[1], ids[2], 0), None);
}

#[test]
fn lookup_by_name_follows_the_latest_concept_and_clear_forgets() {
    let mut sm = SemanticMemory::new();
    let first = create_test_concept("Parser");
    let second = create_test_concept("PARSER");
    let id2 = second.id;
    sm.add_concept(first);
    sm.add_concept(second);
    assert_eq!(sm.get_concept_by_name("parser").unwrap().id, id2);
    assert!(sm.get_concept_by_name("lexer").is_none());
    let mut ids = sm.concept_ids();
    ids.sort();
    assert_eq!(ids.len(), 2);
    sm.set_activation(id2, 0.5f64.to_bits());
    assert_eq!(sm.get_concept(id2).unwrap().activation, 0.5f64.to_bits());
    sm.clear();
    assert!(sm.is_empty());
    assert!(sm.get_concept_by_name("parser").is_none());
}

#[test]
fn paths_can_be_followed_both_ways() {
    let mut sm = SemanticMemory::new();
    let ids: Vec<u128> = ["P", "Q", "R", "S"]
        .iter()
        .map(|n| {
            let c = create_test_concept(n);
            let id = c.id;
            sm.add_concept(c);
            id
        })
        .collect();
    sm.add_relation(relation(ids[0], ids[1], RelationType::Uses, 0.5));
    sm.add_relation(relation(ids[2], ids[1], RelationType::Implements, 0.5));
    for d in 0..4 {
        let there = sm.find_path(ids[0], ids[2], d);
        let back = sm.find_path(ids[2], ids[0], d);
        assert_eq!(there.is_some(), back.is_some());
        assert_eq!(there.map(|p| p.len()), back.map(|p| p.len()));
    }
    assert_eq!(sm.find_path(ids[0], ids[3], 10), None);
    assert_eq!(sm.find_path(ids[3], ids[0], 10), None);
}
