//! The cognitive gate that every action passes before it runs, and the
//! completion of goals. The measures the cognitive gate weighs (expected value,
//! deviation risk, value of information) are worked out by the caller; the
//! gate decides on them, in a fixed order, and keeps the record of what it
//! approved.

use vstd::prelude::*;
use crate::action::{Action, ActionDecision};
use crate::cognitive::{CognitiveMode, DecisionType};
use crate::error::{GoalError, SentinelError};
use crate::goal::{Goal, GoalStatus};
use crate::manifold::GoalManifold;
use crate::strings::chars_of;
use crate::text::{concat_text, contains_chars, lowercase, text_contains, to_lowercase};

verus! {

/// What the checks of an action found.
pub struct GateChecks {
    /// Why the action cannot be justified by the goals, when it cannot
    pub unjustified: Option<String>,
    /// Whether the action passed the safety check
    pub safe: bool,
    /// The invariants the action would violate, written out, when it would
    /// violate some
    pub violations: Option<String>,
    /// The chance that the action makes alignment deviate, written as a
    /// whole percentage, when deviation is likely
    pub deviation_percent: Option<String>,
    /// Better actions to propose instead, when deviation is likely
    pub alternatives: Vec<Action>,
    /// The value of information of the action, written out, when it is too
    /// low to be worth doing
    pub low_value: Option<String>,
}

/// The part of the cognitive state the cognitive gate keeps: the mode, the ids of the
/// actions it approved, and the approved actions in order.
pub struct CognitiveGate {
    pub mode: CognitiveMode,
    pub decision_log: Vec<u128>,
    pub execution_trace: Vec<Action>,
}

/// The kind of decision the cognitive gate reaches on checks `c`: reject an
/// unjustified action, then an unsafe one, then one that violates
/// invariants; on likely deviation propose the alternatives, or reject when
/// there are none; skip an action of too little value; else approve.
pub open spec fn gate_kind(c: GateChecks) -> DecisionType {
    if c.unjustified is Some {
        DecisionType::Reject
    } else if !c.safe {
        DecisionType::Reject
    } else if c.violations is Some {
        DecisionType::Reject
    } else if c.deviation_percent is Some {
        if c.alternatives@.len() > 0 {
            DecisionType::ProposeAlternative
        } else {
            DecisionType::Reject
        }
    } else if c.low_value is Some {
        DecisionType::Skip
    } else {
        DecisionType::Approve
    }
}

/// The reason the cognitive gate gives for its decision on `action` with checks `c`.
pub open spec fn gate_reason(action: Action, c: GateChecks) -> Seq<char> {
    if c.unjustified is Some {
        "Cannot justify action: "@ + c.unjustified->0@
    } else if !c.safe {
        "Action failed safety check"@
    } else if c.violations is Some {
        "Violates invariants: "@ + c.violations->0@
    } else if c.deviation_percent is Some {
        if c.alternatives@.len() > 0 {
            "Rejected '"@ + action.description@ + "': "@ + c.deviation_percent->0@ + "% chance of deviation"@
        } else {
            "High deviation risk ("@ + c.deviation_percent->0@ + "%)"@
        }
    } else if c.low_value is Some {
        "Low value to goal (VOI="@ + c.low_value->0@ + ")"@
    } else {
        "Action approved: "@ + action.description@
    }
}

/// `a` followed by the text `b`.
fn then_text(a: String, b: &str) -> (r: String)
    ensures
        r@ == a@ + b@,
{
    concat_text(a.as_str(), &b.to_owned())
}

impl CognitiveGate {
    /// A gate that has approved nothing yet, planning.
    pub fn new() -> (g: CognitiveGate)
        ensures
            g.mode == CognitiveMode::Planning,
            g.decision_log@.len() == 0,
            g.execution_trace@.len() == 0,
    {
        CognitiveGate { mode: CognitiveMode::Planning, decision_log: Vec::new(), execution_trace: Vec::new() }
    }

    /// Decide on an action, given what its checks found (see `gate_kind` and
    /// `gate_reason`). Only an approval changes the cognitive gate: the action's id
    /// joins the decision log, the action joins the execution trace, and the
    /// mode becomes `Executing`.
    pub fn gate_action(&mut self, action: Action, checks: GateChecks) -> (d: ActionDecision)
        ensures
            d.decision_type == gate_kind(checks),
            d.reason@ == gate_reason(action, checks),
            d.decision_type == DecisionType::ProposeAlternative ==> d.alternatives == checks.alternatives,
            d.decision_type != DecisionType::ProposeAlternative ==> d.alternatives@.len() == 0,
            d.retry_after is None,
            gate_kind(checks) != DecisionType::Approve ==> *final(self) == *old(self),
            gate_kind(checks) == DecisionType::Approve ==> {
                &&& final(self).decision_log@ == old(self).decision_log@.push(action.id)
                &&& final(self).execution_trace@ == old(self).execution_trace@.push(action)
                &&& final(self).mode == CognitiveMode::Executing
            },
    {
        let checks = checks;
        if let Some(reason) = checks.unjustified {
            return ActionDecision::reject(concat_text("Cannot justify action: ", &reason));
        }
        if !checks.safe {
            return ActionDecision::reject("Action failed safety check".to_owned());
        }
        if let Some(v) = checks.violations {
            return ActionDecision::reject(concat_text("Violates invariants: ", &v));
        }
        if let Some(p) = checks.deviation_percent {
            if checks.alternatives.len() > 0 {
                let reason = then_text(p, "% chance of deviation");
                return ActionDecision::propose_alternative(&action, reason, checks.alternatives);
            } else {
                let reason = then_text(concat_text("High deviation risk (", &p), "%)");
                return ActionDecision::reject(reason);
            }
        }
        if let Some(voi) = checks.low_value {
            let reason = then_text(concat_text("Low value to goal (VOI=", &voi), ")");
            return ActionDecision::skip(reason);
        }
        let d = ActionDecision::approve(&action);
        self.decision_log.push(action.id);
        self.execution_trace.push(action);
        self.mode = CognitiveMode::Executing;
        d
    }
}

/// A status from which a goal can be carried through the lifecycle
/// (pending, ready, in progress, validating) to completion.
pub open spec fn toward_completion(s: GoalStatus) -> bool {
    ||| s == GoalStatus::Pending
    ||| s == GoalStatus::Ready
    ||| s == GoalStatus::InProgress
    ||| s == GoalStatus::Validating
}

/// The name of a status.
pub open spec fn status_name(s: GoalStatus) -> Seq<char> {
    match s {
        GoalStatus::Pending => "Pending"@,
        GoalStatus::Ready => "Ready"@,
        GoalStatus::InProgress => "InProgress"@,
        GoalStatus::Validating => "Validating"@,
        GoalStatus::Completed => "Completed"@,
        GoalStatus::Failed => "Failed"@,
        GoalStatus::Blocked => "Blocked"@,
        GoalStatus::Deprecated => "Deprecated"@,
    }
}

/// The name of a status.
pub fn status_text(s: GoalStatus) -> (r: String)
    ensures
        r@ == status_name(s),
{
    match s {
        GoalStatus::Pending => "Pending".to_owned(),
        GoalStatus::Ready => "Ready".to_owned(),
        GoalStatus::InProgress => "InProgress".to_owned(),
        GoalStatus::Validating => "Validating".to_owned(),
        GoalStatus::Completed => "Completed".to_owned(),
        GoalStatus::Failed => "Failed".to_owned(),
        GoalStatus::Blocked => "Blocked".to_owned(),
        GoalStatus::Deprecated => "Deprecated".to_owned(),
    }
}

/// `new` is `old` after completing goal `goal_id` with outcome `r`: an
/// unknown goal is `NotFound`; a goal outside the lifecycle toward
/// completion (completed, failed, blocked, deprecated) cannot be completed;
/// neither changes anything. Otherwise the outcome is `Ok` and only the
/// goal's status changes, to `Completed`.
pub open spec fn completion_of(old: GoalManifold, new: GoalManifold, goal_id: u128, r: Result<(), SentinelError>) -> bool {
    if !old.goal_dag.spec_contains(goal_id) {
        &&& r == Err::<(), SentinelError>(SentinelError::Goal(GoalError::NotFound(goal_id)))
        &&& new == old
    } else if !toward_completion(old.goal_dag.spec_goal(goal_id).status) {
        &&& r matches Err(SentinelError::Goal(GoalError::InvalidStateTransition { from, to }))
            && from@ == status_name(old.goal_dag.spec_goal(goal_id).status) && to@ == "Completed"@
        &&& new == old
    } else {
        &&& r is Ok
        &&& new.goal_dag.spec_goal(goal_id) == (Goal { status: GoalStatus::Completed, ..old.goal_dag.spec_goal(goal_id) })
        &&& forall|x: u128|
            #[trigger] old.goal_dag.spec_contains(x) && x != goal_id ==> new.goal_dag.spec_goal(x)
                == old.goal_dag.spec_goal(x)
        &&& forall|x: u128| #[trigger] new.goal_dag.spec_contains(x) <==> old.goal_dag.spec_contains(x)
        &&& forall|a: u128, b: u128|
            #[trigger] new.goal_dag.spec_depends_on(a, b) <==> old.goal_dag.spec_depends_on(a, b)
        &&& new.goal_dag.spec_len() == old.goal_dag.spec_len()
        &&& new.root_intent == old.root_intent
        &&& new.sensitivity == old.sensitivity
        &&& new.reliability == old.reliability
        &&& new.governance == old.governance
        &&& new.invariants == old.invariants
        &&& new.created_at == old.created_at
        &&& new.updated_at == old.updated_at
        &&& new.integrity_hash == old.integrity_hash
        &&& new.version_history == old.version_history
    }
}

/// Complete a goal of the manifold: carry it through the lifecycle (ready,
/// in progress, validating) to `Completed` (see `completion_of`).
pub fn complete_goal_step(m: &mut GoalManifold, goal_id: u128) -> (r: Result<(), SentinelError>)
    requires
        old(m).wf(),
    ensures
        final(m).wf(),
        completion_of(*old(m), *final(m), goal_id, r),
{
    let status = match m.goal_dag.get_goal(goal_id) {
        Some(g) => g.status,
        None => {
            return Err(SentinelError::Goal(GoalError::NotFound(goal_id)));
        },
    };
    match status {
        GoalStatus::Pending | GoalStatus::Ready | GoalStatus::InProgress | GoalStatus::Validating => {},
        _ => {
            return Err(
                SentinelError::Goal(
                    GoalError::InvalidStateTransition { from: status_text(status), to: "Completed".to_owned() },
                ),
            );
        },
    }
    match m.goal_dag.get_goal_mut(goal_id) {
        Some(g) => {
            g.status = GoalStatus::Completed;
        },
        None => {},
    }
    Ok(())
}

/// The ids of the goals among `goals` whose lowercase description occurs in
/// the lowercase description `low` of an action, in order.
pub open spec fn described_goal_ids(goals: Seq<Goal>, low: Seq<char>) -> Seq<u128>
    decreases goals.len(),
{
    if goals.len() == 0 {
        Seq::empty()
    } else {
        let rest = described_goal_ids(goals.drop_last(), low);
        if text_contains(low, lowercase(goals.last().description@)) {
            rest.push(goals.last().id)
        } else {
            rest
        }
    }
}

/// The goals that action `a` serves: the goal it names, when the manifold
/// has it; otherwise every goal whose description occurs in the action's
/// description, ignoring case, in storage order.
pub open spec fn contributing_goal_ids(m: GoalManifold, a: Action) -> Seq<u128> {
    match a.goal_id {
        Some(id) if m.goal_dag.spec_contains(id) => seq![id],
        _ => described_goal_ids(m.goal_dag.spec_goal_list(), lowercase(a.description@)),
    }
}

/// The ids of the goals that action `a` serves (see `contributing_goal_ids`).
pub fn contributing_goals(m: &GoalManifold, a: &Action) -> (ids: Vec<u128>)
    requires
        m.wf(),
    ensures
        ids@ == contributing_goal_ids(*m, *a),
{
    if let Some(id) = a.goal_id {
        if m.get_goal(id).is_some() {
            let mut one = Vec::new();
            one.push(id);
            return one;
        }
    }
    let low = chars_of(to_lowercase(&a.description).as_str());
    let goals = m.all_goals();
    let ghost list = m.goal_dag.spec_goal_list();
    let mut ids: Vec<u128> = Vec::new();
    let mut i: usize = 0;
    while i < goals.len()
        invariant
            i <= goals@.len(),
            goals@.map_values(|g: &Goal| *g) == list,
            low@ == lowercase(a.description@),
            ids@ == described_goal_ids(list.take(i as int), low@),
        decreases goals.len() - i,
    {
        let g = goals[i];
        proof {
            assert(*g == list[i as int]);
            assert(list.take(i as int + 1).drop_last() =~= list.take(i as int));
        }
        let glow = chars_of(to_lowercase(&g.description).as_str());
        if contains_chars(&low, &glow) {
            ids.push(g.id);
        }
        i = i + 1;
    }
    proof {
        assert(list.take(goals@.len() as int) =~= list);
    }
    ids
}

impl CognitiveGate {
    /// Complete goal `goal_id` of `m` (see `completion_of`) and turn to
    /// learning from it: on success the mode becomes `Learning`; on failure
    /// nothing changes.
    pub fn begin_completion(&mut self, m: &mut GoalManifold, goal_id: u128) -> (r: Result<(), SentinelError>)
        requires
            old(m).wf(),
        ensures
            final(m).wf(),
            completion_of(*old(m), *final(m), goal_id, r),
            r is Ok ==> final(self).mode == CognitiveMode::Learning,
            r is Err ==> *final(self) == *old(self),
            final(self).decision_log == old(self).decision_log,
            final(self).execution_trace == old(self).execution_trace,
    {
        let r = complete_goal_step(m, goal_id);
        if r.is_ok() {
            self.mode = CognitiveMode::Learning;
        }
        r
    }

    /// Close a completion once learning from it is over: when learning
    /// succeeded the mode returns to `Planning`; when it failed nothing
    /// changes (the mode stays `Learning`).
    pub fn finish_completion(&mut self, learned: bool)
        ensures
            learned ==> final(self).mode == CognitiveMode::Planning,
            !learned ==> *final(self) == *old(self),
            final(self).decision_log == old(self).decision_log,
            final(self).execution_trace == old(self).execution_trace,
    {
        if learned {
            self.mode = CognitiveMode::Planning;
        }
    }

    /// Complete goal `goal_id` of `m` when learning from it needs no outside
    /// work, or once it is done with outcome `learned`: on success the goal is
    /// completed (see `completion_of`) and, when learning succeeded, the mode
    /// is `Planning` (else `Learning`); on failure nothing changes.
    pub fn complete_goal(&mut self, m: &mut GoalManifold, goal_id: u128, learned: bool) -> (r: Result<(), SentinelError>)
        requires
            old(m).wf(),
        ensures
            final(m).wf(),
            completion_of(*old(m), *final(m), goal_id, r),
            r is Ok && learned ==> final(self).mode == CognitiveMode::Planning,
            r is Ok && !learned ==> final(self).mode == CognitiveMode::Learning,
            r is Err ==> *final(self) == *old(self),
            final(self).decision_log == old(self).decision_log,
            final(self).execution_trace == old(self).execution_trace,
    {
        let r = self.begin_completion(m, goal_id);
        if r.is_ok() {
            self.finish_completion(learned);
        }
        r
    }
}

} // verus!
