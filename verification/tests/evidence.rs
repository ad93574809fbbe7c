use sentinel_core::evidence::AlignmentCertificate;

const AGENT: u128 = 0x1111_2222_3333_4444_5555_6666_7777_8888;
const GOAL: u128 = 0x9999_aaaa_bbbb_cccc_dddd_eeee_ffff_0000;

#[test]
fn certificate_verifies_with_original_content() {
    let cert = AlignmentCertificate::issue(AGENT, GOAL, "let x = secure_action();");
    assert!(cert.verify("let x = secure_action();"));
}

#[test]
fn certificate_fails_on_tampered_content() {
    let cert = AlignmentCertificate::issue(AGENT, GOAL, "let x = secure_action();");
    assert!(!cert.verify("let x = insecure_action();"));
}

#[test]
fn certificate_fails_on_tampered_signature() {
    let mut cert = AlignmentCertificate::issue(AGENT, GOAL, "let x = secure_action();");
    cert.signature = "deadbeef".to_string();
    assert!(!cert.verify("let x = secure_action();"));
}

#[test]
fn certificate_with_known_key_records_its_parts() {
    let secret = [7u8; 32];
    let cert = AlignmentCertificate::issue_with_signing_key(AGENT, GOAL, "deploy", &secret);
    assert_eq!(cert.agent_id, AGENT);
    assert_eq!(cert.goal_id, GOAL);
    assert_eq!(cert.signature_scheme, "ed25519-blake3-v1");
    assert_eq!(cert.action_hash.bytes, *blake3::hash(b"deploy").as_bytes());
    let public = ed25519_dalek::SigningKey::from_bytes(&secret).verifying_key().to_bytes();
    assert_eq!(cert.signer_public_key, hex::encode(public));
    assert_eq!(cert.signer_public_key.len(), 64);
    assert_eq!(cert.signature.len(), 128);
    assert!(cert.verify("deploy"));
    let mut upper = cert;
    upper.signer_public_key = upper.signer_public_key.to_uppercase();
    assert!(upper.verify("deploy"));
}

#[test]
fn certificate_fails_when_any_signed_field_changes() {
    let secret = [9u8; 32];
    let original = AlignmentCertificate::issue_with_signing_key(AGENT, GOAL, "deploy", &secret);
    let mut other_goal = AlignmentCertificate::issue_with_signing_key(AGENT, GOAL, "deploy", &secret);
    other_goal.goal_id = GOAL ^ 1;
    other_goal.signature = original.signature.clone();
    other_goal.timestamp = original.timestamp;
    other_goal.id = original.id;
    assert!(!other_goal.verify("deploy"));
    let mut bad_key = AlignmentCertificate::issue_with_signing_key(AGENT, GOAL, "deploy", &secret);
    bad_key.signer_public_key = "zz".repeat(32);
    assert!(!bad_key.verify("deploy"));
    let mut short_key = AlignmentCertificate::issue_with_signing_key(AGENT, GOAL, "deploy", &secret);
    short_key.signer_public_key = "00".repeat(31);
    assert!(!short_key.verify("deploy"));
}
