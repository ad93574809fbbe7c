//! The user's intent and the runtime governance contract derived from it:
//! which dependencies, frameworks, endpoints and ports a run may use, and the
//! change proposals that a user approves or rejects.

use vstd::prelude::*;
use crate::endpoint::{endpoint_port, extract_port};
use crate::string_map::StringMap;
use crate::text::{decimal_chars, decimal_text, lemma_decimal_text_injective, string_from_chars};
use crate::error::SentinelError;
use crate::strings::{
    clone_opt_string, clone_strings, clone_u16s, dedup_sorted, dedup_sorted_u16, drop_listed,
    drop_listed_u16, has_string, keep_allowed, lemma_contains_filter_u16, lemma_has_string_filter,
    strings_strictly_sorted, u16s_strictly_sorted, chars_of,
};

verus! {

/// Where a governance change proposal stands.
#[derive(Debug, Clone, Copy, PartialEq, Eq, Structural)]
pub enum GovernanceProposalStatus {
    PendingUserApproval,
    ApprovedByUser,
    RejectedByUser,
}

/// The original user intent: what the user wants, in natural language, with
/// the constraints they gave.
pub struct Intent {
    /// Natural language description of the objective
    pub description: String,
    /// User-specified constraints (e.g. "Use TypeScript")
    pub constraints: Vec<String>,
    /// Expected outcomes (informal)
    pub expected_outcomes: Vec<String>,
    /// Target platform, if given
    pub target_platform: Option<String>,
    /// Programming languages
    pub languages: Vec<String>,
    /// Frameworks
    pub frameworks: Vec<String>,
    /// Official infrastructure endpoints (name to address)
    pub infrastructure_map: StringMap,
}

impl Intent {
    /// The endpoint map has distinct names.
    pub open spec fn wf(&self) -> bool {
        self.infrastructure_map.wf()
    }

    /// A new intent with a description and constraints, and nothing else.
    pub fn new(description: String, constraints: Vec<String>) -> (r: Intent)
        ensures
            r.wf(),
            r.description == description,
            r.constraints == constraints,
            r.expected_outcomes@ == Seq::<String>::empty(),
            r.target_platform is None,
            r.languages@ == Seq::<String>::empty(),
            r.frameworks@ == Seq::<String>::empty(),
            r.infrastructure_map@ == Map::<Seq<char>, Seq<char>>::empty(),
    {
        Intent {
            description,
            constraints,
            expected_outcomes: Vec::new(),
            target_platform: None,
            languages: Vec::new(),
            frameworks: Vec::new(),
            infrastructure_map: StringMap::new(),
        }
    }

    /// Add an infrastructure endpoint (a later one under the same name replaces it).
    pub fn with_endpoint(self, name: String, url: String) -> (r: Intent)
        requires
            self.wf(),
        ensures
            r.wf(),
            r.infrastructure_map@ == self.infrastructure_map@.insert(name@, url@),
            r.description == self.description,
            r.constraints == self.constraints,
            r.expected_outcomes == self.expected_outcomes,
            r.target_platform == self.target_platform,
            r.languages == self.languages,
            r.frameworks == self.frameworks,
    {
        let mut s = self;
        s.infrastructure_map.insert(name, url);
        s
    }

    /// Add an expected outcome.
    pub fn with_outcome(self, outcome: String) -> (r: Intent)
        ensures
            r.expected_outcomes@ == self.expected_outcomes@.push(outcome),
            r.description == self.description,
            r.constraints == self.constraints,
            r.target_platform == self.target_platform,
            r.languages == self.languages,
            r.frameworks == self.frameworks,
            r.infrastructure_map == self.infrastructure_map,
    {
        let mut s = self;
        s.expected_outcomes.push(outcome);
        s
    }

    /// Set the target platform.
    pub fn with_platform(self, platform: String) -> (r: Intent)
        ensures
            r.target_platform == Some(platform),
            r.description == self.description,
            r.constraints == self.constraints,
            r.expected_outcomes == self.expected_outcomes,
            r.languages == self.languages,
            r.frameworks == self.frameworks,
            r.infrastructure_map == self.infrastructure_map,
    {
        let mut s = self;
        s.target_platform = Some(platform);
        s
    }

    /// Add a language.
    pub fn with_language(self, language: String) -> (r: Intent)
        ensures
            r.languages@ == self.languages@.push(language),
            r.description == self.description,
            r.constraints == self.constraints,
            r.expected_outcomes == self.expected_outcomes,
            r.target_platform == self.target_platform,
            r.frameworks == self.frameworks,
            r.infrastructure_map == self.infrastructure_map,
    {
        let mut s = self;
        s.languages.push(language);
        s
    }

    /// Add a framework.
    pub fn with_framework(self, framework: String) -> (r: Intent)
        ensures
            r.frameworks@ == self.frameworks@.push(framework),
            r.description == self.description,
            r.constraints == self.constraints,
            r.expected_outcomes == self.expected_outcomes,
            r.target_platform == self.target_platform,
            r.languages == self.languages,
            r.infrastructure_map == self.infrastructure_map,
    {
        let mut s = self;
        s.frameworks.push(framework);
        s
    }
}

/// A change to the governance contract that waits for the user's decision.
///
/// Ids are UUIDs held as their 128-bit value; `created_at` is milliseconds
/// since the Unix epoch; `deterministic_confidence` holds the bits of a
/// floating-point confidence.
pub struct GovernanceChangeProposal {
    pub id: u128,
    pub created_at: i64,
    pub rationale: String,
    pub proposed_dependencies: Vec<String>,
    pub proposed_dependency_removals: Vec<String>,
    pub proposed_frameworks: Vec<String>,
    pub proposed_framework_removals: Vec<String>,
    pub proposed_endpoints: StringMap,
    pub proposed_endpoint_removals: Vec<String>,
    pub proposed_ports: Vec<u16>,
    pub proposed_port_removals: Vec<u16>,
    pub deterministic_confidence: u64,
    pub evidence: Vec<String>,
    pub status: GovernanceProposalStatus,
    pub user_note: Option<String>,
}

impl GovernanceChangeProposal {
    /// The proposed endpoint map has distinct names.
    pub open spec fn wf(&self) -> bool {
        self.proposed_endpoints.wf()
    }

    /// Two proposals hold the same values, field by field.
    pub open spec fn same_as(&self, o: &GovernanceChangeProposal) -> bool {
        &&& self.id == o.id
        &&& self.created_at == o.created_at
        &&& self.rationale == o.rationale
        &&& self.proposed_dependencies@ == o.proposed_dependencies@
        &&& self.proposed_dependency_removals@ == o.proposed_dependency_removals@
        &&& self.proposed_frameworks@ == o.proposed_frameworks@
        &&& self.proposed_framework_removals@ == o.proposed_framework_removals@
        &&& self.proposed_endpoints@ == o.proposed_endpoints@
        &&& self.proposed_endpoints.entries() == o.proposed_endpoints.entries()
        &&& self.proposed_endpoint_removals@ == o.proposed_endpoint_removals@
        &&& self.proposed_ports@ == o.proposed_ports@
        &&& self.proposed_port_removals@ == o.proposed_port_removals@
        &&& self.deterministic_confidence == o.deterministic_confidence
        &&& self.evidence@ == o.evidence@
        &&& self.status == o.status
        &&& self.user_note == o.user_note
    }

    /// A copy of the proposal.
    pub fn clone_proposal(&self) -> (r: GovernanceChangeProposal)
        requires
            self.wf(),
        ensures
            r.wf(),
            r.same_as(self),
    {
        GovernanceChangeProposal {
            id: self.id,
            created_at: self.created_at,
            rationale: self.rationale.clone(),
            proposed_dependencies: clone_strings(&self.proposed_dependencies),
            proposed_dependency_removals: clone_strings(&self.proposed_dependency_removals),
            proposed_frameworks: clone_strings(&self.proposed_frameworks),
            proposed_framework_removals: clone_strings(&self.proposed_framework_removals),
            proposed_endpoints: self.proposed_endpoints.clone_map(),
            proposed_endpoint_removals: clone_strings(&self.proposed_endpoint_removals),
            proposed_ports: clone_u16s(&self.proposed_ports),
            proposed_port_removals: clone_u16s(&self.proposed_port_removals),
            deterministic_confidence: self.deterministic_confidence,
            evidence: clone_strings(&self.evidence),
            status: self.status,
            user_note: clone_opt_string(&self.user_note),
        }
    }
}

/// The ports named by the endpoint addresses `values`.
pub open spec fn port_of_some(values: Seq<Seq<char>>, p: u16) -> bool {
    exists|i: int| 0 <= i < values.len() && endpoint_port(#[trigger] values[i]) == Some(p)
}

/// `s` remains after `removals` are taken out of `current` and `additions` put in.
pub open spec fn merged_has(
    current: Seq<String>,
    removals: Seq<String>,
    additions: Seq<String>,
    s: Seq<char>,
) -> bool {
    (has_string(current, s) && !has_string(removals, s)) || has_string(additions, s)
}

/// `p` remains after `removals` are taken out of `current` and `additions` put in.
pub open spec fn merged_port(current: Seq<u16>, removals: Seq<u16>, additions: Seq<u16>, p: u16) -> bool {
    (current.contains(p) && !removals.contains(p)) || additions.contains(p)
}

/// `j` is the last position of `h` that holds the proposal `id`.
pub open spec fn is_last_with_id(h: Seq<GovernanceChangeProposal>, id: u128, j: int) -> bool {
    &&& 0 <= j < h.len()
    &&& h[j].id == id
    &&& forall|k: int| j < k < h.len() ==> (#[trigger] h[k]).id != id
}

/// The endpoint map after an approval: entries whose address is listed for
/// removal go, then the proposed entries are put in.
pub open spec fn endpoints_after(
    current: Map<Seq<char>, Seq<char>>,
    removals: Seq<String>,
    proposed: Map<Seq<char>, Seq<char>>,
) -> Map<Seq<char>, Seq<char>> {
    current.restrict(current.dom().filter(|k: Seq<char>| !has_string(removals, current[k]))).union_prefer_right(
        proposed,
    )
}

/// Take `removals` out of `current`, add `additions`, then sort and drop repeats.
fn merge_strings(current: &Vec<String>, removals: &Vec<String>, additions: &Vec<String>) -> (r: Vec<String>)
    ensures
        strings_strictly_sorted(r@),
        forall|s: Seq<char>|
            #[trigger] has_string(r@, s) <==> merged_has(current@, removals@, additions@, s),
{
    let mut v = drop_listed(current, removals);
    let ghost kept = v@;
    let mut i: usize = 0;
    while i < additions.len()
        invariant
            i <= additions@.len(),
            v@ == kept + additions@.take(i as int),
        decreases additions.len() - i,
    {
        v.push(additions[i].clone());
        proof {
            assert(additions@.take(i as int + 1) == additions@.take(i as int).push(additions@[i as int]));
        }
        i = i + 1;
    }
    proof {
        assert(additions@.take(additions@.len() as int) == additions@);
        assert forall|s: Seq<char>| #[trigger] has_string(v@, s) <==> merged_has(current@, removals@, additions@, s) by {
            lemma_has_string_filter(current@, |x: String| !has_string(removals@, x@), s);
            if has_string(v@, s) {
                let k = choose|k: int| 0 <= k < v@.len() && #[trigger] v@[k]@ == s;
                if k < kept.len() {
                    assert(kept[k]@ == s);
                } else {
                    assert(additions@[k - kept.len()]@ == s);
                }
            }
            if has_string(kept, s) {
                let k = choose|k: int| 0 <= k < kept.len() && #[trigger] kept[k]@ == s;
                assert(v@[k]@ == s);
            }
            if has_string(additions@, s) {
                let k = choose|k: int| 0 <= k < additions@.len() && #[trigger] additions@[k]@ == s;
                assert(v@[kept.len() + k]@ == s);
            }
        }
    }
    dedup_sorted(v)
}

/// Take `removals` out of `current`, add `additions`, then sort and drop repeats.
fn merge_ports(current: &Vec<u16>, removals: &Vec<u16>, additions: &Vec<u16>) -> (r: Vec<u16>)
    ensures
        u16s_strictly_sorted(r@),
        forall|p: u16| #[trigger] r@.contains(p) <==> merged_port(current@, removals@, additions@, p),
{
    let mut v = drop_listed_u16(current, removals);
    let ghost kept = v@;
    let mut i: usize = 0;
    while i < additions.len()
        invariant
            i <= additions@.len(),
            v@ == kept + additions@.take(i as int),
        decreases additions.len() - i,
    {
        v.push(additions[i]);
        proof {
            assert(additions@.take(i as int + 1) == additions@.take(i as int).push(additions@[i as int]));
        }
        i = i + 1;
    }
    proof {
        assert(additions@.take(additions@.len() as int) == additions@);
        assert forall|p: u16| #[trigger] v@.contains(p) <==> merged_port(current@, removals@, additions@, p) by {
            lemma_contains_filter_u16(current@, |x: u16| !removals@.contains(x), p);
            if v@.contains(p) {
                let k = choose|k: int| 0 <= k < v@.len() && v@[k] == p;
                if k < kept.len() {
                    assert(kept[k] == p);
                } else {
                    assert(additions@[k - kept.len()] == p);
                }
            }
            if kept.contains(p) {
                let k = choose|k: int| 0 <= k < kept.len() && kept[k] == p;
                assert(v@[k] == p);
            }
            if additions@.contains(p) {
                let k = choose|k: int| 0 <= k < additions@.len() && additions@[k] == p;
                assert(v@[kept.len() + k] == p);
            }
        }
    }
    dedup_sorted_u16(v)
}

/// The name under which the `i`-th seeded endpoint is kept: `seeded_` and the
/// number `i + 1`.
pub open spec fn seeded_key(i: nat) -> Seq<char> {
    seq!['s', 'e', 'e', 'd', 'e', 'd', '_'] + decimal_text(i + 1)
}

/// Seeded names of distinct positions differ.
pub proof fn lemma_seeded_key_injective(a: nat, b: nat)
    requires
        seeded_key(a) == seeded_key(b),
    ensures
        a == b,
{
    let p = seq!['s', 'e', 'e', 'd', 'e', 'd', '_'];
    assert(seeded_key(a).skip(7) =~= decimal_text(a + 1));
    assert(seeded_key(b).skip(7) =~= decimal_text(b + 1));
    lemma_decimal_text_injective(a + 1, b + 1);
}

/// The name of the `i`-th seeded endpoint.
fn seeded_name(i: usize) -> (r: String)
    requires
        i < usize::MAX,
    ensures
        r@ == seeded_key(i as nat),
{
    let mut v = chars_of("seeded_");
    let digits = decimal_chars((i + 1) as u64);
    let ghost pre = v@;
    let mut j: usize = 0;
    while j < digits.len()
        invariant
            j <= digits@.len(),
            v@ == pre + digits@.take(j as int),
        decreases digits.len() - j,
    {
        v.push(digits[j]);
        proof {
            assert(digits@.take(j as int + 1) == digits@.take(j as int).push(digits@[j as int]));
        }
        j = j + 1;
    }
    proof {
        reveal_strlit("seeded_");
        assert(digits@.take(digits@.len() as int) == digits@);
        assert(v@ =~= seeded_key(i as nat));
    }
    string_from_chars(&v)
}

/// The runtime governance contract: what a run may depend on, which frameworks
/// it must and may use, which endpoints and ports it may reach, and the change
/// proposals made to it.
pub struct GovernancePolicy {
    pub required_dependencies: Vec<String>,
    pub allowed_dependencies: Vec<String>,
    pub required_frameworks: Vec<String>,
    pub allowed_frameworks: Vec<String>,
    pub allowed_endpoints: StringMap,
    pub allowed_ports: Vec<u16>,
    pub pending_proposal: Option<GovernanceChangeProposal>,
    pub history: Vec<GovernanceChangeProposal>,
}

impl GovernancePolicy {
    /// Every endpoint map in the policy has distinct names.
    pub open spec fn wf(&self) -> bool {
        &&& self.allowed_endpoints.wf()
        &&& (self.pending_proposal matches Some(p) ==> p.wf())
        &&& forall|i: int| 0 <= i < self.history@.len() ==> (#[trigger] self.history@[i]).wf()
    }

    /// An empty policy: nothing required, nothing allowed, no proposals.
    pub fn empty() -> (r: GovernancePolicy)
        ensures
            r.wf(),
            r.required_dependencies@ == Seq::<String>::empty(),
            r.allowed_dependencies@ == Seq::<String>::empty(),
            r.required_frameworks@ == Seq::<String>::empty(),
            r.allowed_frameworks@ == Seq::<String>::empty(),
            r.allowed_endpoints@ == Map::<Seq<char>, Seq<char>>::empty(),
            r.allowed_ports@ == Seq::<u16>::empty(),
            r.pending_proposal is None,
            r.history@ == Seq::<GovernanceChangeProposal>::empty(),
    {
        GovernancePolicy {
            required_dependencies: Vec::new(),
            allowed_dependencies: Vec::new(),
            required_frameworks: Vec::new(),
            allowed_frameworks: Vec::new(),
            allowed_endpoints: StringMap::new(),
            allowed_ports: Vec::new(),
            pending_proposal: None,
            history: Vec::new(),
        }
    }

    /// `self` is `old` after approving its pending proposal `p` with `note`:
    /// the items `p` lists for removal are gone and those it proposes are
    /// added (dependencies, frameworks and ports ascending, each once; the
    /// proposed endpoints replace same-named ones after endpoints with a
    /// listed address are dropped); the required items keep only those still
    /// allowed; the last history entry of `p` is marked approved with the
    /// note; nothing is pending.
    pub open spec fn approval_of(
        &self,
        old: &GovernancePolicy,
        p: GovernanceChangeProposal,
        note: Option<String>,
    ) -> bool {
        &&& strings_strictly_sorted(self.allowed_dependencies@)
        &&& forall|s: Seq<char>|
            #[trigger] has_string(self.allowed_dependencies@, s) <==> merged_has(
                old.allowed_dependencies@,
                p.proposed_dependency_removals@,
                p.proposed_dependencies@,
                s,
            )
        &&& strings_strictly_sorted(self.allowed_frameworks@)
        &&& forall|s: Seq<char>|
            #[trigger] has_string(self.allowed_frameworks@, s) <==> merged_has(
                old.allowed_frameworks@,
                p.proposed_framework_removals@,
                p.proposed_frameworks@,
                s,
            )
        &&& u16s_strictly_sorted(self.allowed_ports@)
        &&& forall|q: u16|
            #[trigger] self.allowed_ports@.contains(q) <==> merged_port(
                old.allowed_ports@,
                p.proposed_port_removals@,
                p.proposed_ports@,
                q,
            )
        &&& self.allowed_endpoints@ == endpoints_after(
            old.allowed_endpoints@,
            p.proposed_endpoint_removals@,
            p.proposed_endpoints@,
        )
        &&& self.required_dependencies@ == old.required_dependencies@.filter(
            |s: String| has_string(self.allowed_dependencies@, s@),
        )
        &&& self.required_frameworks@ == old.required_frameworks@.filter(
            |s: String| has_string(self.allowed_frameworks@, s@),
        )
        &&& self.pending_proposal is None
        &&& self.history_marked(old, p.id, GovernanceProposalStatus::ApprovedByUser, note)
    }

    /// `self` is `old` after rejecting its pending proposal `p` with `note`:
    /// the contract is unchanged, the last history entry of `p` is marked
    /// rejected with the note, and nothing is pending.
    pub open spec fn rejection_of(
        &self,
        old: &GovernancePolicy,
        p: GovernanceChangeProposal,
        note: Option<String>,
    ) -> bool {
        &&& self.required_dependencies == old.required_dependencies
        &&& self.allowed_dependencies == old.allowed_dependencies
        &&& self.required_frameworks == old.required_frameworks
        &&& self.allowed_frameworks == old.allowed_frameworks
        &&& self.allowed_endpoints == old.allowed_endpoints
        &&& self.allowed_ports == old.allowed_ports
        &&& self.pending_proposal is None
        &&& self.history_marked(old, p.id, GovernanceProposalStatus::RejectedByUser, note)
    }

    /// The history of `self` is that of `old` with the last entry of proposal
    /// `id` given `status` and `note`.
    pub open spec fn history_marked(
        &self,
        old: &GovernancePolicy,
        id: u128,
        status: GovernanceProposalStatus,
        note: Option<String>,
    ) -> bool {
        &&& self.history@.len() == old.history@.len()
        &&& forall|j: int|
            0 <= j < old.history@.len() && !is_last_with_id(old.history@, id, j)
                ==> #[trigger] self.history@[j] == old.history@[j]
        &&& forall|j: int|
            #[trigger] is_last_with_id(old.history@, id, j) ==> self.history@[j] == (
            GovernanceChangeProposal { status: status, user_note: note, ..old.history@[j] })
    }

    /// `self` is `old` after seeding it with the observed dependencies,
    /// frameworks, endpoints and ports (see `apply_seed`).
    pub open spec fn seeded_from(
        &self,
        old: &GovernancePolicy,
        dependencies: Seq<String>,
        frameworks: Seq<String>,
        endpoints: Seq<String>,
        ports: Seq<u16>,
        lock_required_to_allowed: bool,
    ) -> bool {
        &&& strings_strictly_sorted(self.allowed_dependencies@)
        &&& forall|s: Seq<char>|
            #[trigger] has_string(self.allowed_dependencies@, s) <==> has_string(dependencies, s)
        &&& strings_strictly_sorted(self.allowed_frameworks@)
        &&& forall|s: Seq<char>|
            #[trigger] has_string(self.allowed_frameworks@, s) <==> has_string(frameworks, s)
        &&& u16s_strictly_sorted(self.allowed_ports@)
        &&& forall|q: u16| #[trigger] self.allowed_ports@.contains(q) <==> ports.contains(q)
        &&& forall|k: Seq<char>|
            #[trigger] self.allowed_endpoints@.contains_key(k) <==> exists|i: int|
                0 <= i < endpoints.len() && k == #[trigger] seeded_key(i as nat)
        &&& forall|i: int|
            0 <= i < endpoints.len() ==> self.allowed_endpoints@[#[trigger] seeded_key(i as nat)]
                == endpoints[i]@
        &&& lock_required_to_allowed ==> self.required_dependencies@ == self.allowed_dependencies@
            && self.required_frameworks@ == self.allowed_frameworks@
        &&& !lock_required_to_allowed ==> self.required_dependencies@
            == old.required_dependencies@.filter(
            |s: String| has_string(self.allowed_dependencies@, s@),
        ) && self.required_frameworks@ == old.required_frameworks@.filter(
            |s: String| has_string(self.allowed_frameworks@, s@),
        )
        &&& self.pending_proposal is None
        &&& self.history == old.history
    }

    /// Record a proposal: it becomes the pending one and is appended to the history.
    pub fn record_proposal(&mut self, proposal: GovernanceChangeProposal)
        requires
            old(self).wf(),
            proposal.wf(),
        ensures
            final(self).wf(),
            final(self).pending_proposal matches Some(p) && p.same_as(&proposal),
            final(self).history@ == old(self).history@.push(proposal),
            final(self).required_dependencies == old(self).required_dependencies,
            final(self).allowed_dependencies == old(self).allowed_dependencies,
            final(self).required_frameworks == old(self).required_frameworks,
            final(self).allowed_frameworks == old(self).allowed_frameworks,
            final(self).allowed_endpoints == old(self).allowed_endpoints,
            final(self).allowed_ports == old(self).allowed_ports,
    {
        self.pending_proposal = Some(proposal.clone_proposal());
        self.history.push(proposal);
    }

    /// Set the status and note of the last history entry with proposal `id`.
    fn mark_decision(&mut self, id: u128, status: GovernanceProposalStatus, note: Option<String>)
        requires
            old(self).wf(),
        ensures
            final(self).wf(),
            final(self).history@.len() == old(self).history@.len(),
            forall|j: int|
                0 <= j < old(self).history@.len() && !is_last_with_id(old(self).history@, id, j)
                    ==> #[trigger] final(self).history@[j] == old(self).history@[j],
            forall|j: int|
                #[trigger] is_last_with_id(old(self).history@, id, j) ==> final(self).history@[j] == (
                GovernanceChangeProposal { status: status, user_note: note, ..old(self).history@[j] }),
            final(self).required_dependencies == old(self).required_dependencies,
            final(self).allowed_dependencies == old(self).allowed_dependencies,
            final(self).required_frameworks == old(self).required_frameworks,
            final(self).allowed_frameworks == old(self).allowed_frameworks,
            final(self).allowed_endpoints == old(self).allowed_endpoints,
            final(self).allowed_ports == old(self).allowed_ports,
            final(self).pending_proposal == old(self).pending_proposal,
    {
        let mut i: usize = self.history.len();
        while i > 0
            invariant
                i <= self.history@.len(),
                *self == *old(self),
                old(self).wf(),
                forall|k: int| i <= k < self.history@.len() ==> (#[trigger] self.history@[k]).id != id,
            decreases i,
        {
            i = i - 1;
            if self.history[i].id == id {
                assert(is_last_with_id(old(self).history@, id, i as int));
                self.history[i].status = status;
                self.history[i].user_note = note;
                assert forall|k: int| 0 <= k < self.history@.len() implies (#[trigger] self.history@[k]).wf() by {
                    assert(old(self).history@[k].wf());
                }
                assert forall|j: int| #[trigger] is_last_with_id(old(self).history@, id, j) implies j == i by {
                    if j < i {
                        assert(old(self).history@[i as int].id == id);
                    }
                }
                return;
            }
        }
        assert forall|j: int| #[trigger] is_last_with_id(old(self).history@, id, j) implies false by {
            assert(old(self).history@[j].id == id);
        }
    }

    /// Approve the pending proposal: remove what it lists for removal, add
    /// what it proposes, keep only the required items that are still allowed,
    /// and mark it approved in the history. Without a pending proposal nothing
    /// changes and an invariant violation is reported.
    pub fn approve_pending(&mut self, user_note: Option<String>) -> (r: Result<u128, SentinelError>)
        requires
            old(self).wf(),
        ensures
            final(self).wf(),
            old(self).pending_proposal is None ==> {
                &&& r matches Err(SentinelError::InvariantViolation(m)) && m@ == "No pending governance proposal"@
                &&& *final(self) == *old(self)
            },
            old(self).pending_proposal matches Some(p) ==> r == Ok::<u128, SentinelError>(p.id)
                && final(self).approval_of(old(self), p, user_note),
    {
        let pending = match &self.pending_proposal {
            Some(p) => p.clone_proposal(),
            None => {
                return Err(SentinelError::InvariantViolation("No pending governance proposal".to_owned()));
            },
        };
        let proposal_id = pending.id;
        self.allowed_dependencies = merge_strings(
            &self.allowed_dependencies,
            &pending.proposed_dependency_removals,
            &pending.proposed_dependencies,
        );
        self.allowed_frameworks = merge_strings(
            &self.allowed_frameworks,
            &pending.proposed_framework_removals,
            &pending.proposed_frameworks,
        );
        self.allowed_ports = merge_ports(
            &self.allowed_ports,
            &pending.proposed_port_removals,
            &pending.proposed_ports,
        );
        self.allowed_endpoints.retain_values_not_in(&pending.proposed_endpoint_removals);
        self.allowed_endpoints.insert_all(&pending.proposed_endpoints);
        self.required_dependencies = keep_allowed(&self.required_dependencies, &self.allowed_dependencies);
        self.required_frameworks = keep_allowed(&self.required_frameworks, &self.allowed_frameworks);
        self.mark_decision(proposal_id, GovernanceProposalStatus::ApprovedByUser, user_note);
        self.pending_proposal = None;
        Ok(proposal_id)
    }

    /// Reject the pending proposal: mark it rejected in the history and clear
    /// it; the contract itself is unchanged. Without a pending proposal nothing
    /// changes and an invariant violation is reported.
    pub fn reject_pending(&mut self, user_note: Option<String>) -> (r: Result<u128, SentinelError>)
        requires
            old(self).wf(),
        ensures
            final(self).wf(),
            old(self).pending_proposal is None ==> {
                &&& r matches Err(SentinelError::InvariantViolation(m)) && m@ == "No pending governance proposal"@
                &&& *final(self) == *old(self)
            },
            old(self).pending_proposal matches Some(p) ==> r == Ok::<u128, SentinelError>(p.id)
                && final(self).rejection_of(old(self), p, user_note),
    {
        let proposal_id = match &self.pending_proposal {
            Some(p) => p.id,
            None => {
                return Err(SentinelError::InvariantViolation("No pending governance proposal".to_owned()));
            },
        };
        self.mark_decision(proposal_id, GovernanceProposalStatus::RejectedByUser, user_note);
        self.pending_proposal = None;
        Ok(proposal_id)
    }

    /// Replace the contract by one observed in the workspace: the given
    /// dependencies, frameworks and ports (sorted, without repeats) become the
    /// allowed ones, the endpoints are kept under the names `seeded_1`,
    /// `seeded_2`, ...; the required items either become the allowed ones
    /// (`lock_required_to_allowed`) or keep only those still allowed. Any
    /// pending proposal is dropped.
    pub fn apply_seed(
        &mut self,
        dependencies: Vec<String>,
        frameworks: Vec<String>,
        endpoints: Vec<String>,
        ports: Vec<u16>,
        lock_required_to_allowed: bool,
    )
        requires
            old(self).wf(),
        ensures
            final(self).wf(),
            final(self).seeded_from(old(self), dependencies@, frameworks@, endpoints@, ports@, lock_required_to_allowed),
    {
        self.allowed_dependencies = dedup_sorted(dependencies);
        self.allowed_frameworks = dedup_sorted(frameworks);
        self.allowed_ports = dedup_sorted_u16(ports);
        self.allowed_endpoints.clear();
        let ghost ad0 = self.allowed_dependencies;
        let ghost af0 = self.allowed_frameworks;
        let ghost ap0 = self.allowed_ports;
        let mut index: usize = 0;
        while index < endpoints.len()
            invariant
                self.allowed_endpoints.wf(),
                self.allowed_dependencies == ad0,
                self.allowed_frameworks == af0,
                self.allowed_ports == ap0,
                self.required_dependencies == old(self).required_dependencies,
                self.required_frameworks == old(self).required_frameworks,
                self.history == old(self).history,
                self.pending_proposal == old(self).pending_proposal,
                old(self).wf(),
                index <= endpoints@.len(),
                forall|k: Seq<char>|
                    #[trigger] self.allowed_endpoints@.contains_key(k) <==> exists|i: int|
                        0 <= i < index && k == #[trigger] seeded_key(i as nat),
                forall|i: int|
                    0 <= i < index ==> self.allowed_endpoints@[#[trigger] seeded_key(i as nat)]
                        == endpoints@[i]@,
            decreases endpoints.len() - index,
        {
            let name = seeded_name(index);
            let ghost before = self.allowed_endpoints@;
            self.allowed_endpoints.insert(name, endpoints[index].clone());
            proof {
                assert forall|i: int| 0 <= i < index + 1 implies self.allowed_endpoints@[#[trigger] seeded_key(i as nat)]
                    == endpoints@[i]@ by {
                    if i < index && seeded_key(i as nat) == seeded_key(index as nat) {
                        lemma_seeded_key_injective(i as nat, index as nat);
                    }
                }
                assert forall|k: Seq<char>|
                    #[trigger] self.allowed_endpoints@.contains_key(k) <==> exists|i: int|
                        0 <= i < index + 1 && k == #[trigger] seeded_key(i as nat) by {
                    if k == seeded_key(index as nat) {
                        let w: int = index as int;
                        assert(0 <= w < index + 1 && k == seeded_key(w as nat));
                        assert(self.allowed_endpoints@.contains_key(k));
                    } else {
                        if exists|i: int| 0 <= i < index + 1 && k == #[trigger] seeded_key(i as nat) {
                            let i = choose|i: int| 0 <= i < index + 1 && k == #[trigger] seeded_key(i as nat);
                            assert(i < index);
                            assert(self.allowed_endpoints@.contains_key(k));
                        }
                        if self.allowed_endpoints@.contains_key(k) {
                            assert(before.contains_key(k));
                            let i = choose|i: int| 0 <= i < index && k == #[trigger] seeded_key(i as nat);
                            assert(0 <= i < index + 1 && k == seeded_key(i as nat));
                        }
                    }
                }
            }
            index = index + 1;
        }
        if lock_required_to_allowed {
            self.required_dependencies = clone_strings(&self.allowed_dependencies);
            self.required_frameworks = clone_strings(&self.allowed_frameworks);
        } else {
            self.required_dependencies = keep_allowed(&self.required_dependencies, &self.allowed_dependencies);
            self.required_frameworks = keep_allowed(&self.required_frameworks, &self.allowed_frameworks);
        }
        self.pending_proposal = None;
    }

    /// This is the policy that `intent` implies: its frameworks (ascending,
    /// each once) are both required and allowed, its endpoints are allowed,
    /// and so are the ports that those endpoint addresses name; nothing else
    /// is required or allowed and there are no proposals.
    pub open spec fn derived_from(&self, intent: &Intent) -> bool {
        &&& strings_strictly_sorted(self.allowed_frameworks@)
        &&& forall|s: Seq<char>|
            #[trigger] has_string(self.allowed_frameworks@, s) <==> has_string(intent.frameworks@, s)
        &&& self.required_frameworks@ == self.allowed_frameworks@
        &&& self.allowed_endpoints@ == intent.infrastructure_map@
        &&& u16s_strictly_sorted(self.allowed_ports@)
        &&& forall|p: u16|
            #[trigger] self.allowed_ports@.contains(p) <==> exists|k: Seq<char>|
                #[trigger] intent.infrastructure_map@.contains_key(k) && endpoint_port(
                    intent.infrastructure_map@[k],
                ) == Some(p)
        &&& self.required_dependencies@ == Seq::<String>::empty()
        &&& self.allowed_dependencies@ == Seq::<String>::empty()
        &&& self.pending_proposal is None
        &&& self.history@ == Seq::<GovernanceChangeProposal>::empty()
    }

    /// The policy an intent implies: its frameworks (sorted, without repeats)
    /// are both required and allowed, its endpoints are allowed, and so are
    /// the ports that those endpoint addresses name.
    pub fn from_intent(intent: &Intent) -> (r: GovernancePolicy)
        requires
            intent.wf(),
        ensures
            r.wf(),
            r.derived_from(intent),
    {
        let mut policy = GovernancePolicy::empty();
        policy.allowed_frameworks = dedup_sorted(clone_strings(&intent.frameworks));
        policy.required_frameworks = clone_strings(&policy.allowed_frameworks);
        policy.allowed_endpoints = intent.infrastructure_map.clone_map();
        let values = intent.infrastructure_map.values();
        let mut ports: Vec<u16> = Vec::new();
        let mut i: usize = 0;
        while i < values.len()
            invariant
                i <= values@.len(),
                forall|p: u16|
                    #[trigger] ports@.contains(p) <==> exists|j: int|
                        0 <= j < i && endpoint_port(#[trigger] values@[j]@) == Some(p),
            decreases values.len() - i,
        {
            let ghost p0 = ports@;
            match extract_port(values[i].as_str()) {
                Some(port) => {
                    ports.push(port);
                    proof {
                        assert forall|p: u16| #[trigger] ports@.contains(p) <==> exists|j: int|
                            0 <= j < i + 1 && endpoint_port(#[trigger] values@[j]@) == Some(p) by {
                            if ports@.contains(p) {
                                let k = choose|k: int| 0 <= k < ports@.len() && ports@[k] == p;
                                if k < p0.len() {
                                    assert(p0.contains(p));
                                }
                            }
                            if p == port {
                                assert(ports@[p0.len() as int] == p);
                            } else if exists|j: int|
                                0 <= j < i + 1 && endpoint_port(#[trigger] values@[j]@) == Some(p) {
                                let j = choose|j: int|
                                    0 <= j < i + 1 && endpoint_port(#[trigger] values@[j]@) == Some(p);
                                assert(j < i);
                                assert(p0.contains(p));
                                let k = choose|k: int| 0 <= k < p0.len() && p0[k] == p;
                                assert(ports@[k] == p);
                            }
                        }
                    }
                },
                None => {
                    proof {
                        assert forall|p: u16| #[trigger] ports@.contains(p) <==> exists|j: int|
                            0 <= j < i + 1 && endpoint_port(#[trigger] values@[j]@) == Some(p) by {
                            if exists|j: int|
                                0 <= j < i + 1 && endpoint_port(#[trigger] values@[j]@) == Some(p) {
                                let j = choose|j: int|
                                    0 <= j < i + 1 && endpoint_port(#[trigger] values@[j]@) == Some(p);
                                assert(j < i);
                            }
                        }
                    }
                },
            }
            i = i + 1;
        }
        policy.allowed_ports = dedup_sorted_u16(ports);
        proof {
            intent.infrastructure_map.lemma_values();
            let m = intent.infrastructure_map@;
            let e = intent.infrastructure_map.entries();
            assert forall|p: u16| #[trigger] policy.allowed_ports@.contains(p) <==> exists|k: Seq<char>|
                #[trigger] m.contains_key(k) && endpoint_port(m[k]) == Some(p) by {
                if policy.allowed_ports@.contains(p) {
                    assert(ports@.contains(p));
                    let j = choose|j: int| 0 <= j < values@.len() && endpoint_port(#[trigger] values@[j]@) == Some(p);
                    assert(values@[j] == e[j].1);
                    assert(m.contains_key(e[j].0@));
                }
                if exists|k: Seq<char>| #[trigger] m.contains_key(k) && endpoint_port(m[k]) == Some(p) {
                    let k = choose|k: Seq<char>| #[trigger] m.contains_key(k) && endpoint_port(m[k]) == Some(p);
                    let j = choose|j: int| 0 <= j < e.len() && #[trigger] e[j].0@ == k;
                    assert(values@[j] == e[j].1);
                    assert(endpoint_port(values@[j]@) == Some(p));
                    assert(ports@.contains(p));
                }
            }
        }
        policy
    }
}

/// After an approval every required dependency and framework is still
/// allowed.
pub proof fn law_approval_keeps_required_allowed(
    new: GovernancePolicy,
    old: GovernancePolicy,
    p: GovernanceChangeProposal,
    note: Option<String>,
)
    requires
        new.approval_of(&old, p, note),
    ensures
        forall|i: int| 0 <= i < new.required_dependencies@.len() ==> has_string(
            new.allowed_dependencies@,
            (#[trigger] new.required_dependencies@[i])@,
        ),
        forall|i: int| 0 <= i < new.required_frameworks@.len() ==> has_string(
            new.allowed_frameworks@,
            (#[trigger] new.required_frameworks@[i])@,
        ),
{
    assert forall|i: int| 0 <= i < new.required_dependencies@.len() implies has_string(
        new.allowed_dependencies@,
        (#[trigger] new.required_dependencies@[i])@,
    ) by {
        old.required_dependencies@.lemma_filter_pred(|s: String| has_string(new.allowed_dependencies@, s@), i);
    }
    assert forall|i: int| 0 <= i < new.required_frameworks@.len() implies has_string(
        new.allowed_frameworks@,
        (#[trigger] new.required_frameworks@[i])@,
    ) by {
        old.required_frameworks@.lemma_filter_pred(|s: String| has_string(new.allowed_frameworks@, s@), i);
    }
}

/// After seeding, every required dependency and framework is allowed, with
/// or without locking the required items to the allowed ones.
pub proof fn law_seed_keeps_required_allowed(
    new: GovernancePolicy,
    old: GovernancePolicy,
    dependencies: Seq<String>,
    frameworks: Seq<String>,
    endpoints: Seq<String>,
    ports: Seq<u16>,
    lock: bool,
)
    requires
        new.seeded_from(&old, dependencies, frameworks, endpoints, ports, lock),
    ensures
        forall|i: int| 0 <= i < new.required_dependencies@.len() ==> has_string(
            new.allowed_dependencies@,
            (#[trigger] new.required_dependencies@[i])@,
        ),
        forall|i: int| 0 <= i < new.required_frameworks@.len() ==> has_string(
            new.allowed_frameworks@,
            (#[trigger] new.required_frameworks@[i])@,
        ),
{
    assert forall|i: int| 0 <= i < new.required_dependencies@.len() implies has_string(
        new.allowed_dependencies@,
        (#[trigger] new.required_dependencies@[i])@,
    ) by {
        if lock {
            assert(new.allowed_dependencies@[i] == new.required_dependencies@[i]);
        } else {
            old.required_dependencies@.lemma_filter_pred(|s: String| has_string(new.allowed_dependencies@, s@), i);
        }
    }
    assert forall|i: int| 0 <= i < new.required_frameworks@.len() implies has_string(
        new.allowed_frameworks@,
        (#[trigger] new.required_frameworks@[i])@,
    ) by {
        if lock {
            assert(new.allowed_frameworks@[i] == new.required_frameworks@[i]);
        } else {
            old.required_frameworks@.lemma_filter_pred(|s: String| has_string(new.allowed_frameworks@, s@), i);
        }
    }
}

/// A rejection changes nothing of the contract itself.
pub proof fn law_rejection_keeps_contract(
    new: GovernancePolicy,
    old: GovernancePolicy,
    p: GovernanceChangeProposal,
    note: Option<String>,
)
    requires
        new.rejection_of(&old, p, note),
    ensures
        new.required_dependencies == old.required_dependencies,
        new.allowed_dependencies == old.allowed_dependencies,
        new.required_frameworks == old.required_frameworks,
        new.allowed_frameworks == old.allowed_frameworks,
        new.allowed_endpoints == old.allowed_endpoints,
        new.allowed_ports == old.allowed_ports,
{
}

} // verus!

