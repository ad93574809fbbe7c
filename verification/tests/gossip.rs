use sentinel_core::federation::{ConsensusEngine, Proposal, Vote};
use sentinel_core::goal::GoalStatus;
use sentinel_core::gossip::{
    FederatedPattern, GossipDisposition, GossipMessage, GossipPayload, GossipService, NodeIdentity,
};
use sentinel_core::learning::{ActionType, GoalType, SuccessPattern};

fn proposal(id: u128) -> Proposal {
    Proposal { id, agent_id: 7, goal_id: 9, suggested_status: GoalStatus::Completed, rationale: "done".to_string(), timestamp: 0 }
}

#[test]
fn identity_signs_and_verifies() {
    let id = NodeIdentity::generate();
    assert_eq!(id.public_key_hex.len(), 64);
    assert_eq!(id.node_id, format!("sentinel-node-{}", &id.public_key_hex[..12]));
    let sig = id.sign_message(b"hello").unwrap();
    assert_eq!(sig.len(), 128);
    assert!(NodeIdentity::verify_signature(&id.public_key_hex, b"hello", &sig));
    assert!(!NodeIdentity::verify_signature(&id.public_key_hex, b"hellp", &sig));
    assert!(!NodeIdentity::verify_signature("zz", b"hello", &sig));
    assert!(!NodeIdentity::verify_signature(&id.public_key_hex, b"hello", &sig[..126]));
    let other = NodeIdentity::generate();
    assert!(!NodeIdentity::verify_signature(&other.public_key_hex, b"hello", &sig));
}

#[test]
fn identity_without_key_cannot_sign() {
    let id = NodeIdentity { node_id: "n".to_string(), signing_key: None, public_key_hex: String::new() };
    assert!(id.sign_message(b"x").is_none());
}

#[test]
fn broadcast_then_receive() {
    let mut sender = GossipService::new(NodeIdentity::generate());
    let json = br#"{"NodeHealth":{"uptime":5,"alignment_avg":0.5}}"#;
    let msg = sender
        .broadcast_payload(GossipPayload::NodeHealth { uptime: 5, alignment_avg: 0.5f64.to_bits() }, json)
        .unwrap();
    assert_eq!(msg.sender_id, sender.identity.node_id);
    assert_eq!(msg.sender_public_key, sender.identity.public_key_hex);
    let mut receiver = GossipService::new(NodeIdentity::generate());
    assert!(receiver.receive_message(msg, json));
    assert_eq!(receiver.message_queue.len(), 1);
    let forged = GossipMessage {
        sender_id: "x".to_string(),
        sender_public_key: sender.identity.public_key_hex.clone(),
        payload: GossipPayload::NodeHealth { uptime: 6, alignment_avg: 0 },
        signature: "00".repeat(64),
    };
    assert!(!receiver.receive_message(forged, json));
    assert_eq!(receiver.message_queue.len(), 1);
}

#[test]
fn incoming_gossip_drives_consensus() {
    let mut service = GossipService::new(NodeIdentity::generate());
    let mut engine = ConsensusEngine::new();
    let json = b"proposal 1";
    let msg = service.broadcast_payload(GossipPayload::ConsensusProposal(proposal(1)), json).unwrap();
    match engine.accept_gossip(msg, json) {
        GossipDisposition::ProposalSubmitted { proposal_id, agent_id } => {
            assert_eq!(proposal_id, 1);
            assert_eq!(agent_id, 7);
        }
        other => panic!("unexpected {:?}", other),
    }
    assert!(engine.active_proposals.contains_key(&1));
    let vote = Vote { agent_id: 3, proposal_id: 1, approve: true, authority_weight: 1.0f64.to_bits() };
    let json = b"vote";
    let msg = service.broadcast_payload(GossipPayload::ConsensusVote(vote), json).unwrap();
    match engine.accept_gossip(msg, json) {
        GossipDisposition::VoteCast { proposal_id, approve, counted } => {
            assert_eq!(proposal_id, 1);
            assert!(approve);
            assert!(counted);
        }
        other => panic!("unexpected {:?}", other),
    }
    let again = Vote { agent_id: 3, proposal_id: 1, approve: false, authority_weight: 0 };
    let msg = service.broadcast_payload(GossipPayload::ConsensusVote(again), json).unwrap();
    match engine.accept_gossip(msg, json) {
        GossipDisposition::VoteCast { counted, .. } => assert!(!counted),
        other => panic!("unexpected {:?}", other),
    }
    assert_eq!(engine.votes[&1].len(), 1);
    let msg = service.broadcast_payload(GossipPayload::ConsensusProposal(proposal(2)), b"signed text").unwrap();
    assert!(matches!(engine.accept_gossip(msg, b"other text"), GossipDisposition::Rejected));
    assert!(!engine.active_proposals.contains_key(&2));
    let threat = GossipPayload::ThreatAlert { dependency_name: "left-pad".to_string(), risk_score: 0.9f64.to_bits(), reason: "typosquat".to_string() };
    let msg = service.broadcast_payload(threat, b"t").unwrap();
    match engine.accept_gossip(msg, b"t") {
        GossipDisposition::ThreatReported { dependency_name, reason, .. } => {
            assert_eq!(dependency_name, "left-pad");
            assert_eq!(reason, "typosquat");
        }
        other => panic!("unexpected {:?}", other),
    }
}

#[test]
fn anonymized_patterns_keep_only_fingerprints() {
    let pattern = SuccessPattern {
        id: 1,
        name: "jwt auth".to_string(),
        description: "secret project details".to_string(),
        action_sequence: vec![
            ActionType::CreateFile { language: "rs".to_string() },
            ActionType::RunTests,
            ActionType::Custom { name: "lint".to_string() },
        ],
        applicable_to_goal_types: vec![GoalType::Api, GoalType::Security],
        success_rate: 0.9f64.to_bits(),
        support: 3,
        preconditions: vec![],
        expected_outcomes: vec![],
        confidence: 0.8f64.to_bits(),
        learned_at: 0,
    };
    let fp = FederatedPattern::anonymize("node-7", &pattern);
    assert_eq!(fp.source_node, "node-7");
    assert_eq!(fp.goal_type_abstract, "Api");
    assert_eq!(f64::from_bits(fp.efficiency_score), 0.9);
    let expect = |t: &str| hex::encode(blake3::hash(t.as_bytes()).as_bytes());
    assert_eq!(
        fp.action_sequence_hashes,
        vec![
            expect("CreateFile { language: \"rs\" }"),
            expect("RunTests"),
            expect("Custom { name: \"lint\" }"),
        ]
    );
    assert!(fp.timestamp > 1_600_000_000);
}
