//! Node identities and signed gossip between Sentinel nodes. Payloads are
//! signed over their JSON text, which the caller produces.

use vstd::prelude::*;
use std::collections::VecDeque;
use crate::evidence::{
    array_32, array_64, ed25519_accepts, ed25519_public, ed25519_public_key, ed25519_sign,
    ed25519_signature, ed25519_verify, hex_bytes, hex_decodable, hex_decode, hex_encode, hex_text,
    lemma_hex_roundtrip, random_secret_key,
};
use crate::federation::{has_voted, ConsensusEngine, Proposal, Vote};
use crate::learning::{action_text, goal_type_name, goal_type_text, SuccessPattern};
use crate::manifold::{blake3_digest, blake3_hash, now_seconds};
use crate::evidence::utf8_bytes;
use vstd::utf8::encode_utf8;
use crate::strings::chars_of;
use crate::text::{concat_text, string_from_chars};

verus! {

/// The signature (hexadecimal text) is valid for the message under the
/// public key (hexadecimal text): both decode, to 32 and 64 bytes, and
/// Ed25519 verification accepts.
pub open spec fn signature_valid(public_hex: Seq<char>, msg: Seq<u8>, sig_hex: Seq<char>) -> bool {
    &&& hex_decodable(public_hex)
    &&& hex_bytes(public_hex).len() == 32
    &&& hex_decodable(sig_hex)
    &&& hex_bytes(sig_hex).len() == 64
    &&& ed25519_accepts(hex_bytes(public_hex), msg, hex_bytes(sig_hex))
}

/// A secret signing key; its bytes stay inside the library.
pub struct SigningSecret {
    bytes: [u8; 32],
}

impl SigningSecret {
    /// The key's bytes.
    pub closed spec fn key_bytes(self) -> Seq<u8> {
        self.bytes@
    }
}

/// The cryptographic identity of a node: its id, its signing key (absent on
/// identities received from elsewhere) and its public key in hexadecimal.
pub struct NodeIdentity {
    pub node_id: String,
    pub signing_key: Option<SigningSecret>,
    pub public_key_hex: String,
}

impl NodeIdentity {
    /// The secret key, when the identity holds one.
    pub open spec fn secret(self) -> Option<Seq<u8>> {
        match self.signing_key {
            Some(k) => Some(k.key_bytes()),
            None => None,
        }
    }

    /// The public key is that of the signing key (32 bytes), when there is
    /// one.
    pub open spec fn wf(self) -> bool {
        self.secret() matches Some(s) ==> self.public_key_hex@ == hex_text(ed25519_public(s))
            && ed25519_public(s).len() == 32
    }

    /// A new identity with a fresh random key; its id is `sentinel-node-`
    /// and the first 12 digits of its public key.
    pub fn generate() -> (id: NodeIdentity)
        ensures
            id.wf(),
            id.secret() is Some,
            id.public_key_hex@.len() == 64,
            id.node_id@ == "sentinel-node-"@ + id.public_key_hex@.take(12),
    {
        let secret = random_secret_key();
        let public = ed25519_public_key(&secret);
        let public_key_hex = hex_encode(public.as_slice());
        proof {
            lemma_hex_roundtrip(public@);
        }
        let mut head = chars_of(public_key_hex.as_str());
        head.truncate(12);
        let short = string_from_chars(&head);
        let node_id = concat_text("sentinel-node-", &short);
        NodeIdentity { node_id, signing_key: Some(SigningSecret { bytes: secret }), public_key_hex }
    }

    /// Sign a message: the hexadecimal Ed25519 signature under the node's
    /// key, which verifies under its public key; none without a key.
    pub fn sign_message(&self, message: &[u8]) -> (r: Option<String>)
        requires
            self.wf(),
        ensures
            r is Some <==> self.secret() is Some,
            r matches Some(s) ==> s@ == hex_text(ed25519_signature(self.secret()->0, message@))
                && signature_valid(self.public_key_hex@, message@, s@),
    {
        match &self.signing_key {
            Some(secret) => {
                let key = &secret.bytes;
                let sig = ed25519_sign(key, message);
                let text = hex_encode(sig.as_slice());
                proof {
                    lemma_hex_roundtrip(sig@);
                    lemma_hex_roundtrip(ed25519_public(key@));
                }
                Some(text)
            },
            None => None,
        }
    }

    /// Whether the signature is valid for the message under the public key.
    pub fn verify_signature(public_key_hex: &str, message: &[u8], signature_hex: &str) -> (b: bool)
        ensures
            b == signature_valid(public_key_hex@, message@, signature_hex@),
    {
        let public = match hex_decode(public_key_hex) {
            Some(bytes) => bytes,
            None => {
                return false;
            },
        };
        let signature = match hex_decode(signature_hex) {
            Some(bytes) => bytes,
            None => {
                return false;
            },
        };
        if public.len() != 32 || signature.len() != 64 {
            return false;
        }
        let public = array_32(&public);
        let signature = array_64(&signature);
        ed25519_verify(&public, message, &signature)
    }
}

/// An anonymised success pattern or threat shared with the federation;
/// `efficiency_score` holds the bits of a fraction, `timestamp` is seconds
/// since the Unix epoch.
#[derive(Debug)]
pub struct FederatedPattern {
    pub source_node: String,
    pub goal_type_abstract: String,
    pub action_sequence_hashes: Vec<String>,
    pub efficiency_score: u64,
    pub timestamp: i64,
}

/// What a gossip message carries; scores hold the bits of numbers.
#[derive(Debug)]
pub enum GossipPayload {
    Pattern(FederatedPattern),
    ConsensusProposal(Proposal),
    ConsensusVote(Vote),
    ThreatAlert { dependency_name: String, risk_score: u64, reason: String },
    NodeHealth { uptime: u64, alignment_avg: u64 },
}

/// The anonymous fingerprint of an action kind: the lowercase hexadecimal
/// BLAKE3 hash of its text (see `action_text`).
pub open spec fn action_fingerprint(a: crate::learning::ActionType) -> Seq<char> {
    hex_text(blake3_digest(encode_utf8(action_text(a))))
}

impl FederatedPattern {
    /// Share a local success pattern without what identifies the project:
    /// its first goal type by name, each action kind only by fingerprint, its
    /// success rate, and the current time.
    pub fn anonymize(node_id: &str, pattern: &SuccessPattern) -> (r: FederatedPattern)
        requires
            pattern.applicable_to_goal_types@.len() > 0,
        ensures
            r.source_node@ == node_id@,
            r.goal_type_abstract@ == goal_type_name(pattern.applicable_to_goal_types@[0]),
            r.action_sequence_hashes@.len() == pattern.action_sequence@.len(),
            forall|i: int|
                0 <= i < pattern.action_sequence@.len() ==> (#[trigger] r.action_sequence_hashes@[i])@
                    == action_fingerprint(pattern.action_sequence@[i]),
            r.efficiency_score == pattern.success_rate,
    {
        let mut hashes: Vec<String> = Vec::new();
        let mut i: usize = 0;
        while i < pattern.action_sequence.len()
            invariant
                i <= pattern.action_sequence@.len(),
                hashes@.len() == i,
                forall|j: int|
                    0 <= j < i ==> (#[trigger] hashes@[j])@ == action_fingerprint(pattern.action_sequence@[j]),
            decreases pattern.action_sequence.len() - i,
        {
            let text = pattern.action_sequence[i].to_text();
            let digest = blake3_hash(&utf8_bytes(text.as_str()));
            hashes.push(hex_encode(&digest));
            i = i + 1;
        }
        FederatedPattern {
            source_node: node_id.to_owned(),
            goal_type_abstract: goal_type_text(pattern.applicable_to_goal_types[0]),
            action_sequence_hashes: hashes,
            efficiency_score: pattern.success_rate,
            timestamp: now_seconds(),
        }
    }
}

/// A signed gossip message.
#[derive(Debug)]
pub struct GossipMessage {
    pub sender_id: String,
    pub sender_public_key: String,
    pub payload: GossipPayload,
    pub signature: String,
}

/// Signs outgoing gossip and queues incoming gossip whose signature holds.
pub struct GossipService {
    pub identity: NodeIdentity,
    pub message_queue: VecDeque<GossipMessage>,
}

impl GossipService {
    /// A service for this identity with an empty queue.
    pub fn new(identity: NodeIdentity) -> (g: GossipService)
        ensures
            g.identity == identity,
            g.message_queue@.len() == 0,
    {
        GossipService { identity, message_queue: VecDeque::new() }
    }

    /// A message carrying the payload, signed over its JSON text
    /// `payload_json`; none when the identity holds no key.
    pub fn broadcast_payload(&mut self, payload: GossipPayload, payload_json: &[u8]) -> (r: Option<GossipMessage>)
        requires
            old(self).identity.wf(),
        ensures
            *final(self) == *old(self),
            r is Some <==> old(self).identity.secret() is Some,
            r matches Some(m) ==> {
                &&& m.sender_id == old(self).identity.node_id
                &&& m.sender_public_key == old(self).identity.public_key_hex
                &&& m.payload == payload
                &&& m.signature@ == hex_text(ed25519_signature(old(self).identity.secret()->0, payload_json@))
                &&& signature_valid(m.sender_public_key@, payload_json@, m.signature@)
            },
    {
        let signature = match self.identity.sign_message(payload_json) {
            Some(s) => s,
            None => {
                return None;
            },
        };
        Some(
            GossipMessage {
                sender_id: self.identity.node_id.clone(),
                sender_public_key: self.identity.public_key_hex.clone(),
                payload,
                signature,
            },
        )
    }

    /// Queue a message whose signature over its payload's JSON text
    /// `payload_json` is valid under its sender's key; `true` when queued.
    pub fn receive_message(&mut self, message: GossipMessage, payload_json: &[u8]) -> (accepted: bool)
        ensures
            accepted == signature_valid(message.sender_public_key@, payload_json@, message.signature@),
            accepted ==> final(self).message_queue@ == old(self).message_queue@.push(message),
            !accepted ==> final(self).message_queue@ == old(self).message_queue@,
            final(self).identity == old(self).identity,
    {
        if NodeIdentity::verify_signature(message.sender_public_key.as_str(), payload_json, message.signature.as_str()) {
            self.message_queue.push_back(message);
            true
        } else {
            false
        }
    }
}

/// What became of an incoming gossip message.
#[derive(Debug)]
pub enum GossipDisposition {
    /// The signature did not hold; nothing was done
    Rejected,
    /// The proposal was submitted
    ProposalSubmitted { proposal_id: u128, agent_id: u128 },
    /// The vote was cast (and counted or not)
    VoteCast { proposal_id: u128, approve: bool, counted: bool },
    /// A threat was reported
    ThreatReported { sender_id: String, dependency_name: String, risk_score: u64, reason: String },
    /// Nothing to do for this payload
    Ignored,
}

impl ConsensusEngine {
    /// Handle a gossip message whose payload has the JSON text
    /// `payload_json`: a message whose signature does not hold is rejected;
    /// otherwise a proposal is submitted, a vote is cast, a threat is
    /// reported, and anything else is ignored.
    pub fn accept_gossip(&mut self, msg: GossipMessage, payload_json: &[u8]) -> (d: GossipDisposition)
        requires
            old(self).wf(),
        ensures
            final(self).wf(),
            !signature_valid(msg.sender_public_key@, payload_json@, msg.signature@) ==> d is Rejected
                && final(self).active_proposals == old(self).active_proposals && final(self).votes
                == old(self).votes,
            signature_valid(msg.sender_public_key@, payload_json@, msg.signature@) ==> match msg.payload {
                GossipPayload::ConsensusProposal(p) => {
                    &&& d == (GossipDisposition::ProposalSubmitted { proposal_id: p.id, agent_id: p.agent_id })
                    &&& final(self).active_proposals@ == old(self).active_proposals@.insert(p.id, p)
                    &&& final(self).votes@.dom() == old(self).votes@.dom().insert(p.id)
                    &&& final(self).votes@[p.id]@.len() == 0
                },
                GossipPayload::ConsensusVote(v) => {
                    let counted = old(self).votes@.contains_key(v.proposal_id) && !has_voted(
                        old(self).votes@[v.proposal_id]@,
                        v.agent_id,
                    );
                    &&& d == (GossipDisposition::VoteCast {
                        proposal_id: v.proposal_id,
                        approve: v.approve,
                        counted,
                    })
                    &&& counted ==> final(self).votes@[v.proposal_id]@ == old(self).votes@[v.proposal_id]@.push(v)
                    &&& !counted ==> final(self).votes@ == old(self).votes@
                    &&& final(self).active_proposals == old(self).active_proposals
                },
                GossipPayload::ThreatAlert { dependency_name, risk_score, reason } => {
                    &&& d == (GossipDisposition::ThreatReported {
                        sender_id: msg.sender_id,
                        dependency_name,
                        risk_score,
                        reason,
                    })
                    &&& final(self).active_proposals == old(self).active_proposals
                    &&& final(self).votes == old(self).votes
                },
                _ => d is Ignored && final(self).active_proposals == old(self).active_proposals
                    && final(self).votes == old(self).votes,
            },
    {
        if !NodeIdentity::verify_signature(msg.sender_public_key.as_str(), payload_json, msg.signature.as_str()) {
            return GossipDisposition::Rejected;
        }
        match msg.payload {
            GossipPayload::ConsensusProposal(proposal) => {
                let proposal_id = proposal.id;
                let agent_id = proposal.agent_id;
                self.submit_proposal(proposal);
                GossipDisposition::ProposalSubmitted { proposal_id, agent_id }
            },
            GossipPayload::ConsensusVote(vote) => {
                let proposal_id = vote.proposal_id;
                let approve = vote.approve;
                let counted = self.cast_vote(vote);
                GossipDisposition::VoteCast { proposal_id, approve, counted }
            },
            GossipPayload::ThreatAlert { dependency_name, risk_score, reason } => {
                GossipDisposition::ThreatReported { sender_id: msg.sender_id, dependency_name, risk_score, reason }
            },
            _ => GossipDisposition::Ignored,
        }
    }
}

} // verus!
