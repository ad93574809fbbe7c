//! Alignment certificates: signed evidence that an action was checked and
//! approved. A certificate binds the BLAKE3 hash of the action to an agent,
//! a goal and a time, signed with Ed25519 over a fixed byte layout.

use vstd::prelude::*;
use vstd::utf8::encode_utf8;
use ed25519_dalek::{Signer, Verifier};
use rand_core::RngCore;
use crate::framing::{be_bytes, le_bytes, push_be, push_le, push_str};
use crate::manifold::{blake3_digest, blake3_hash, new_uuid, now_millis, Blake3Hash};
use crate::text::{hex_char, hex_digits};

verus! {

/// The value of a hexadecimal digit (either case), or -1.
pub open spec fn hex_value(c: char) -> int {
    if '0' <= c <= '9' {
        c as int - 48
    } else if 'a' <= c <= 'f' {
        c as int - 87
    } else if 'A' <= c <= 'F' {
        c as int - 55
    } else {
        -1
    }
}

/// Lowercase hexadecimal text of bytes, two digits per byte.
pub open spec fn hex_text(b: Seq<u8>) -> Seq<char>
    decreases b.len(),
{
    if b.len() == 0 {
        Seq::empty()
    } else {
        hex_text(b.drop_last()) + hex_digits(b.last() as nat, 2)
    }
}

/// The text is an even number of hexadecimal digits.
pub open spec fn hex_decodable(s: Seq<char>) -> bool {
    s.len() % 2 == 0 && forall|i: int| 0 <= i < s.len() ==> hex_value(#[trigger] s[i]) >= 0
}

/// The bytes that pairs of hexadecimal digits spell.
pub open spec fn hex_bytes(s: Seq<char>) -> Seq<u8> {
    Seq::new(s.len() / 2, |i: int| (16 * hex_value(s[2 * i]) + hex_value(s[2 * i + 1])) as u8)
}

/// Lowercase hexadecimal text of bytes (`hex::encode`).
#[verifier::external_body]
pub(crate) fn hex_encode(data: &[u8]) -> (r: String)
    ensures
        r@ == hex_text(data@),
{
    hex::encode(data)
}

/// The bytes a hexadecimal text spells (`hex::decode`): none unless the
/// text is an even number of digits of either case.
#[verifier::external_body]
pub(crate) fn hex_decode(s: &str) -> (r: Option<Vec<u8>>)
    ensures
        r is Some <==> hex_decodable(s@),
        r matches Some(v) ==> v@ == hex_bytes(s@),
{
    match hex::decode(s) {
        Ok(v) => Some(v),
        Err(_) => None,
    }
}

/// A digit's value comes back from its character.
proof fn lemma_hex_char_value(d: nat)
    requires
        d < 16,
    ensures
        hex_value(hex_char(d)) == d,
{
    vstd::utf8::char_u32_cast(hex_char(d), (if d < 10 { d + 48 } else { d + 87 }) as u32);
}

/// Each byte becomes its high and its low digit.
proof fn lemma_hex_text_shape(b: Seq<u8>)
    ensures
        hex_text(b).len() == 2 * b.len(),
        forall|i: int|
            0 <= i < b.len() ==> hex_text(b)[2 * i] == hex_char(#[trigger] b[i] as nat / 16)
                && hex_text(b)[2 * i + 1] == hex_char(b[i] as nat % 16),
    decreases b.len(),
{
    if b.len() > 0 {
        lemma_hex_text_shape(b.drop_last());
        let x = b.last() as nat;
        assert(hex_digits(x, 2) == hex_digits(x / 16, 1).push(hex_char(x % 16)));
        assert(hex_digits(x / 16, 1) == hex_digits(x / 16 / 16, 0).push(hex_char((x / 16) % 16)));
        assert((x / 16) % 16 == x / 16);
        assert forall|i: int| 0 <= i < b.len() implies hex_text(b)[2 * i] == hex_char(#[trigger] b[i] as nat / 16)
            && hex_text(b)[2 * i + 1] == hex_char(b[i] as nat % 16) by {
            if i < b.len() - 1 {
                assert(b.drop_last()[i] == b[i]);
            }
        }
    }
}

/// Hexadecimal text decodes back to its bytes.
pub proof fn lemma_hex_roundtrip(b: Seq<u8>)
    ensures
        hex_decodable(hex_text(b)),
        hex_bytes(hex_text(b)) == b,
{
    lemma_hex_text_shape(b);
    let s = hex_text(b);
    assert forall|i: int| 0 <= i < s.len() implies hex_value(#[trigger] s[i]) >= 0 by {
        let k = i / 2;
        assert(0 <= k < b.len());
        if i % 2 == 0 {
            assert(i == 2 * k);
            lemma_hex_char_value(b[k] as nat / 16);
        } else {
            assert(i == 2 * k + 1);
            lemma_hex_char_value(b[k] as nat % 16);
        }
    }
    assert forall|i: int| 0 <= i < b.len() implies #[trigger] hex_bytes(s)[i] == b[i] by {
        assert(s[2 * i] == hex_char(b[i] as nat / 16));
        lemma_hex_char_value(b[i] as nat / 16);
        lemma_hex_char_value(b[i] as nat % 16);
    }
    assert(hex_bytes(s) =~= b);
}

/// The Ed25519 public key of a secret key.
pub uninterp spec fn ed25519_public(secret: Seq<u8>) -> Seq<u8>;

/// The Ed25519 signature of a message under a secret key (deterministic).
pub uninterp spec fn ed25519_signature(secret: Seq<u8>, msg: Seq<u8>) -> Seq<u8>;

/// The public key decodes to a curve point and the signature is valid for
/// the message under it.
pub uninterp spec fn ed25519_accepts(public: Seq<u8>, msg: Seq<u8>, sig: Seq<u8>) -> bool;

/// The public key of a secret key (`SigningKey::verifying_key`, as bytes).
#[verifier::external_body]
pub(crate) fn ed25519_public_key(secret: &[u8; 32]) -> (r: [u8; 32])
    ensures
        r@ == ed25519_public(secret@),
{
    ed25519_dalek::SigningKey::from_bytes(secret).verifying_key().to_bytes()
}

/// The signature of a message under a secret key (`Signer::sign` of
/// `SigningKey`, as bytes). Such a signature verifies under the key's
/// public key, as the crate's documentation shows.
#[verifier::external_body]
pub(crate) fn ed25519_sign(secret: &[u8; 32], msg: &[u8]) -> (r: [u8; 64])
    ensures
        r@ == ed25519_signature(secret@, msg@),
        ed25519_accepts(ed25519_public(secret@), msg@, r@),
{
    ed25519_dalek::SigningKey::from_bytes(secret).sign(msg).to_bytes()
}

/// Whether the signature verifies for the message under the public key
/// (`VerifyingKey::from_bytes`, then `Verifier::verify`); false when the key
/// does not decode.
#[verifier::external_body]
pub(crate) fn ed25519_verify(public: &[u8; 32], msg: &[u8], sig: &[u8; 64]) -> (r: bool)
    ensures
        r == ed25519_accepts(public@, msg@, sig@),
{
    match ed25519_dalek::VerifyingKey::from_bytes(public) {
        Ok(key) => key.verify(msg, &ed25519_dalek::Signature::from_bytes(sig)).is_ok(),
        Err(_) => false,
    }
}

/// A random secret key (`OsRng::fill_bytes`). Nothing is promised of it.
#[verifier::external_body]
pub(crate) fn random_secret_key() -> [u8; 32] {
    let mut key = [0u8; 32];
    rand_core::OsRng.fill_bytes(&mut key);
    key
}

/// The UTF-8 bytes of a text.
pub(crate) fn utf8_bytes(s: &str) -> (r: Vec<u8>)
    ensures
        r@ == encode_utf8(s@),
{
    let b = s.as_bytes();
    let mut r: Vec<u8> = Vec::new();
    let mut i: usize = 0;
    while i < b.len()
        invariant
            i <= b@.len(),
            r@ == b@.take(i as int),
        decreases b.len() - i,
    {
        r.push(b[i]);
        proof {
            assert(b@.take(i as int + 1) =~= b@.take(i as int).push(b@[i as int]));
        }
        i = i + 1;
    }
    proof {
        assert(b@.take(b@.len() as int) =~= b@);
    }
    r
}

/// The 32 bytes of `v` as an array.
pub(crate) fn array_32(v: &Vec<u8>) -> (r: [u8; 32])
    requires
        v@.len() == 32,
    ensures
        r@ == v@,
{
    let mut r = [0u8; 32];
    let mut i: usize = 0;
    while i < 32
        invariant
            v@.len() == 32,
            i <= 32,
            r@.len() == 32,
            forall|k: int| 0 <= k < i ==> r@[k] == v@[k],
        decreases 32 - i,
    {
        r.set(i, v[i]);
        i = i + 1;
    }
    assert(r@ =~= v@);
    r
}

/// The 64 bytes of `v` as an array.
pub(crate) fn array_64(v: &Vec<u8>) -> (r: [u8; 64])
    requires
        v@.len() == 64,
    ensures
        r@ == v@,
{
    let mut r = [0u8; 64];
    let mut i: usize = 0;
    while i < 64
        invariant
            v@.len() == 64,
            i <= 64,
            r@.len() == 64,
            forall|k: int| 0 <= k < i ==> r@[k] == v@[k],
        decreases 64 - i,
    {
        r.set(i, v[i]);
        i = i + 1;
    }
    assert(r@ =~= v@);
    r
}

/// A certificate of alignment issued for an action. Ids are UUIDs held as
/// their 128-bit value; the timestamp is milliseconds since the Unix epoch;
/// the key and the signature are lowercase hexadecimal text.
pub struct AlignmentCertificate {
    pub id: u128,
    pub action_hash: Blake3Hash,
    pub agent_id: u128,
    pub goal_id: u128,
    pub timestamp: i64,
    pub signer_public_key: String,
    pub signature: String,
    pub signature_scheme: String,
}

/// The bytes a certificate's signature covers: the id, the agent and the
/// goal as 16 big-endian bytes each, the timestamp as 8 little-endian bytes,
/// the action hash as hexadecimal text, and the scheme's name.
pub open spec fn payload_of(c: AlignmentCertificate) -> Seq<u8> {
    be_bytes(c.id as nat, 16) + be_bytes(c.agent_id as nat, 16) + be_bytes(c.goal_id as nat, 16)
        + le_bytes((c.timestamp as u64) as nat, 8) + encode_utf8(hex_text(c.action_hash.bytes@))
        + encode_utf8(c.signature_scheme@)
}

/// The certificate holds for the content: the content hashes to the
/// certificate's action hash, the key and the signature decode from
/// hexadecimal to 32 and 64 bytes, and the signature over the payload
/// verifies under the key.
pub open spec fn certificate_holds(c: AlignmentCertificate, content: Seq<char>) -> bool {
    &&& c.action_hash.bytes@ == blake3_digest(encode_utf8(content))
    &&& hex_decodable(c.signer_public_key@)
    &&& hex_bytes(c.signer_public_key@).len() == 32
    &&& hex_decodable(c.signature@)
    &&& hex_bytes(c.signature@).len() == 64
    &&& ed25519_accepts(hex_bytes(c.signer_public_key@), payload_of(c), hex_bytes(c.signature@))
}

/// The certificate was issued for the content by the secret key: it records
/// the content's hash, the agent and the goal, the key's public key and its
/// signature over the payload, under the scheme `ed25519-blake3-v1`.
pub open spec fn issued_by(
    c: AlignmentCertificate,
    agent_id: u128,
    goal_id: u128,
    content: Seq<char>,
    secret: Seq<u8>,
) -> bool {
    &&& c.agent_id == agent_id
    &&& c.goal_id == goal_id
    &&& c.action_hash.bytes@ == blake3_digest(encode_utf8(content))
    &&& c.signature_scheme@ == "ed25519-blake3-v1"@
    &&& c.signer_public_key@ == hex_text(ed25519_public(secret))
    &&& c.signature@ == hex_text(ed25519_signature(secret, payload_of(c)))
}

impl AlignmentCertificate {
    /// Issue a certificate for the action under a fresh random key.
    pub fn issue(agent_id: u128, goal_id: u128, action_content: &str) -> (c: AlignmentCertificate)
        ensures
            c.agent_id == agent_id,
            c.goal_id == goal_id,
            c.action_hash.bytes@ == blake3_digest(encode_utf8(action_content@)),
            c.signature_scheme@ == "ed25519-blake3-v1"@,
            certificate_holds(c, action_content@),
    {
        let secret = random_secret_key();
        AlignmentCertificate::issue_with_signing_key(agent_id, goal_id, action_content, &secret)
    }

    /// Issue a certificate for the action under the given secret key; it
    /// holds for the action's content.
    pub fn issue_with_signing_key(
        agent_id: u128,
        goal_id: u128,
        action_content: &str,
        secret_key: &[u8; 32],
    ) -> (c: AlignmentCertificate)
        ensures
            issued_by(c, agent_id, goal_id, action_content@, secret_key@),
            certificate_holds(c, action_content@),
    {
        let data = utf8_bytes(action_content);
        let action_hash = Blake3Hash { bytes: blake3_hash(&data) };
        let public = ed25519_public_key(secret_key);
        let mut certificate = AlignmentCertificate {
            id: new_uuid(),
            action_hash,
            agent_id,
            goal_id,
            timestamp: now_millis(),
            signer_public_key: hex_encode(public.as_slice()),
            signature: String::new(),
            signature_scheme: "ed25519-blake3-v1".to_string(),
        };
        let payload = certificate.signing_payload();
        let signature = ed25519_sign(secret_key, payload.as_slice());
        certificate.signature = hex_encode(signature.as_slice());
        proof {
            lemma_hex_roundtrip(public@);
            lemma_hex_roundtrip(signature@);
            assert(payload_of(certificate) == payload@);
        }
        certificate
    }

    /// Whether the certificate holds for the content.
    pub fn verify(&self, action_content: &str) -> (b: bool)
        ensures
            b == certificate_holds(*self, action_content@),
    {
        let data = utf8_bytes(action_content);
        let current = Blake3Hash { bytes: blake3_hash(&data) };
        if !current.equals(&self.action_hash) {
            return false;
        }
        let public = match hex_decode(self.signer_public_key.as_str()) {
            Some(bytes) => bytes,
            None => {
                return false;
            },
        };
        if public.len() != 32 {
            return false;
        }
        let public = array_32(&public);
        let signature = match hex_decode(self.signature.as_str()) {
            Some(bytes) => bytes,
            None => {
                return false;
            },
        };
        if signature.len() != 64 {
            return false;
        }
        let signature = array_64(&signature);
        let payload = self.signing_payload();
        ed25519_verify(&public, payload.as_slice(), &signature)
    }

    /// The bytes the signature covers.
    fn signing_payload(&self) -> (r: Vec<u8>)
        ensures
            r@ == payload_of(*self),
    {
        let mut payload: Vec<u8> = Vec::new();
        push_be(&mut payload, self.id, 16);
        push_be(&mut payload, self.agent_id, 16);
        push_be(&mut payload, self.goal_id, 16);
        push_le(&mut payload, self.timestamp as u64, 8);
        let hash_text = hex_encode(self.action_hash.bytes.as_slice());
        push_str(&mut payload, &hash_text);
        push_str(&mut payload, &self.signature_scheme);
        proof {
            assert(payload@ =~= payload_of(*self));
        }
        payload
    }
}

} // verus!
