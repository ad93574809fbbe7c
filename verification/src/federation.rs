//! Swarm federation: threat vocabulary, node identity, and the consensus
//! engine through which agents vote on proposed goal changes.
//!
//! Ids are UUIDs held as their 128-bit value; times are milliseconds since
//! the Unix epoch; authority weights hold the bits of a fraction.

use vstd::prelude::*;
use std::collections::HashMap;
use crate::goal::GoalStatus;

verus! {

broadcast use vstd::std_specs::hash::group_hash_axioms;

/// Kind of threat reported to the swarm.
#[derive(Debug, Clone, Copy, PartialEq, Eq, Structural)]
pub enum ThreatType {
    AlignmentDeviation,
    SecurityVulnerability,
    UnauthorizedAction,
    NetworkAttack,
}

/// Severity of a threat.
#[derive(Debug, Clone, Copy, PartialEq, Eq, Structural)]
pub enum Severity {
    Low,
    Medium,
    High,
    Critical,
}

/// Identity of a network node.
pub struct NodeInfo {
    pub peer_id: String,
    pub node_id: String,
}

/// A proposed change of a goal's status.
#[derive(Debug)]
pub struct Proposal {
    pub id: u128,
    pub agent_id: u128,
    pub goal_id: u128,
    pub suggested_status: GoalStatus,
    pub rationale: String,
    pub timestamp: i64,
}

/// A vote by an agent or the user.
#[derive(Debug)]
pub struct Vote {
    pub agent_id: u128,
    pub proposal_id: u128,
    pub approve: bool,
    pub authority_weight: u64,
}

/// No agent occurs twice among the votes.
pub open spec fn one_vote_per_agent(v: Seq<Vote>) -> bool {
    forall|i: int, j: int| 0 <= i < j < v.len() ==> (#[trigger] v[i]).agent_id != (#[trigger] v[j]).agent_id
}

/// Some vote of `v` is by `agent`.
pub open spec fn has_voted(v: Seq<Vote>, agent: u128) -> bool {
    exists|i: int| 0 <= i < v.len() && (#[trigger] v[i]).agent_id == agent
}

/// Collects proposals and the votes cast on them.
pub struct ConsensusEngine {
    pub active_proposals: HashMap<u128, Proposal>,
    pub votes: HashMap<u128, Vec<Vote>>,
}

impl ConsensusEngine {
    /// Every proposal's votes hold at most one vote per agent.
    pub open spec fn wf(&self) -> bool {
        forall|id: u128| #[trigger] self.votes@.contains_key(id) ==> one_vote_per_agent(self.votes@[id]@)
    }

    /// No proposals and no votes.
    pub fn new() -> (e: ConsensusEngine)
        ensures
            e.wf(),
            e.active_proposals@ == Map::<u128, Proposal>::empty(),
            e.votes@ == Map::<u128, Vec<Vote>>::empty(),
    {
        ConsensusEngine { active_proposals: HashMap::new(), votes: HashMap::new() }
    }

    /// Submit a proposal: it becomes active with no votes (a resubmitted id
    /// starts over).
    pub fn submit_proposal(&mut self, proposal: Proposal)
        requires
            old(self).wf(),
        ensures
            final(self).wf(),
            final(self).active_proposals@ == old(self).active_proposals@.insert(proposal.id, proposal),
            final(self).votes@.dom() == old(self).votes@.dom().insert(proposal.id),
            final(self).votes@[proposal.id]@.len() == 0,
            forall|id: u128| #[trigger] old(self).votes@.contains_key(id) && id != proposal.id
                ==> final(self).votes@[id] == old(self).votes@[id],
    {
        let id = proposal.id;
        self.active_proposals.insert(id, proposal);
        self.votes.insert(id, Vec::new());
        assert forall|x: u128| #[trigger] self.votes@.contains_key(x) implies one_vote_per_agent(self.votes@[x]@) by {
            if x != id {
                assert(old(self).votes@.contains_key(x));
            }
        }
        assert(self.votes@.dom() =~= old(self).votes@.dom().insert(id));
    }

    /// Cast a vote. It counts, and `true` comes back, exactly when the
    /// proposal was submitted and its agent has not voted on it yet: an
    /// agent votes at most once per proposal.
    pub fn cast_vote(&mut self, vote: Vote) -> (accepted: bool)
        requires
            old(self).wf(),
        ensures
            final(self).wf(),
            accepted == (old(self).votes@.contains_key(vote.proposal_id) && !has_voted(
                old(self).votes@[vote.proposal_id]@,
                vote.agent_id,
            )),
            accepted ==> final(self).votes@.dom() == old(self).votes@.dom() && final(self).votes@[vote.proposal_id]@
                == old(self).votes@[vote.proposal_id]@.push(vote) && forall|id: u128|
                #[trigger] old(self).votes@.contains_key(id) && id != vote.proposal_id ==> final(self).votes@[id]
                    == old(self).votes@[id],
            !accepted ==> final(self).votes@ == old(self).votes@,
            final(self).active_proposals == old(self).active_proposals,
    {
        let pid = vote.proposal_id;
        match self.votes.remove(&pid) {
            None => false,
            Some(mut list) => {
                let mut i: usize = 0;
                let mut seen = false;
                while i < list.len()
                    invariant
                        i <= list@.len(),
                        seen == has_voted(list@.take(i as int), vote.agent_id),
                    decreases list.len() - i,
                {
                    proof {
                        assert(list@.take(i as int + 1) =~= list@.take(i as int).push(list@[i as int]));
                        if has_voted(list@.take(i as int + 1), vote.agent_id) && !has_voted(list@.take(i as int), vote.agent_id) {
                            let k = choose|k: int| 0 <= k < i + 1 && (#[trigger] list@.take(i as int + 1)[k]).agent_id == vote.agent_id;
                            assert(k == i);
                        }
                        if has_voted(list@.take(i as int), vote.agent_id) {
                            let k = choose|k: int| 0 <= k < i && (#[trigger] list@.take(i as int)[k]).agent_id == vote.agent_id;
                            assert(list@.take(i as int + 1)[k].agent_id == vote.agent_id);
                        }
                        if list@[i as int].agent_id == vote.agent_id {
                            assert(list@.take(i as int + 1)[i as int].agent_id == vote.agent_id);
                        }
                    }
                    if list[i].agent_id == vote.agent_id {
                        seen = true;
                    }
                    i = i + 1;
                }
                proof {
                    assert(list@.take(list@.len() as int) == list@);
                }
                let ghost before = list@;
                let accepted = !seen;
                if accepted {
                    list.push(vote);
                    proof {
                        assert forall|a: int, b: int| 0 <= a < b < list@.len() implies (#[trigger] list@[a]).agent_id
                            != (#[trigger] list@[b]).agent_id by {
                            if b == before.len() {
                                assert(list@[a] == before[a]);
                            } else {
                                assert(list@[a] == before[a] && list@[b] == before[b]);
                            }
                        }
                    }
                }
                self.votes.insert(pid, list);
                proof {
                    assert forall|x: u128| #[trigger] self.votes@.contains_key(x) implies one_vote_per_agent(self.votes@[x]@) by {
                        if x != pid {
                            assert(old(self).votes@.contains_key(x));
                        }
                    }
                    assert(self.votes@.dom() =~= old(self).votes@.dom());
                    if !accepted {
                        assert(self.votes@ =~= old(self).votes@);
                    }
                }
                accepted
            },
        }
    }

    /// The votes cast on a proposal, if it was submitted.
    pub fn votes_of(&self, proposal_id: u128) -> (r: Option<&Vec<Vote>>)
        ensures
            match r {
                Some(v) => self.votes@.contains_key(proposal_id) && *v == self.votes@[proposal_id],
                None => !self.votes@.contains_key(proposal_id),
            },
    {
        self.votes.get(&proposal_id)
    }
}

} // verus!
