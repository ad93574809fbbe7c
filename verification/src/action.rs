//! Actions the agent takes on a project, their results, and decisions about
//! them; which actions are safe.

use vstd::prelude::*;
use crate::cognitive::{Change, DecisionType};
use crate::compaction::frames::clamp_unit_bits;
use crate::goal::GoalStatus;
use crate::manifold::{new_uuid, now_millis};
use crate::memory::clamp_unit_bits_of;
use crate::strings::chars_of;
use crate::text::{concat_text, contains_chars, text_contains};

verus! {

/// What an action does. Paths are text.
#[derive(Debug)]
pub enum ActionType {
    EditFile { path: String, old_content: String, new_content: String },
    CreateFile { path: String, content: String },
    DeleteFile { path: String, backup: bool },
    RunCommand { command: String, working_dir: String },
    RunTests { suite: String },
    UpdateGoal { goal_id: u128, new_status: GoalStatus },
    Custom { name: String, payload: serde_json::Value },
}

/// Bookkeeping of an action; durations (seconds) and risk hold the bits of
/// numbers.
#[derive(Debug)]
pub struct ActionMetadata {
    pub estimated_duration: Option<u64>,
    pub risk_level: u64,
    pub reversible: bool,
    pub tags: Vec<String>,
}

impl Default for ActionMetadata {
    /// No estimate, no risk, not reversible, no tags.
    fn default() -> (m: ActionMetadata)
        ensures
            m.estimated_duration is None,
            m.risk_level == 0,
            !m.reversible,
            m.tags@.len() == 0,
    {
        ActionMetadata { estimated_duration: None, risk_level: 0, reversible: false, tags: Vec::new() }
    }
}

/// An action the agent wants to take. Ids are UUIDs held as their 128-bit
/// value; `expected_value` holds the bits of a fraction; `created_at` is
/// milliseconds since the Unix epoch.
#[derive(Debug)]
pub struct Action {
    pub id: u128,
    pub action_type: ActionType,
    pub description: String,
    pub goal_id: Option<u128>,
    pub expected_value: u64,
    pub created_at: i64,
    pub metadata: ActionMetadata,
}

/// `s` ends with `t`.
pub open spec fn ends_with(s: Seq<char>, t: Seq<char>) -> bool {
    t.len() <= s.len() && s.subrange(s.len() - t.len(), s.len() as int) == t
}

/// Whether `s` ends with `t`.
fn ends_with_chars(s: &Vec<char>, t: &Vec<char>) -> (b: bool)
    ensures
        b == ends_with(s@, t@),
{
    if t.len() > s.len() {
        return false;
    }
    let n = s.len();
    let off = n - t.len();
    let mut i: usize = 0;
    while i < t.len()
        invariant
            n == s@.len(),
            off == s@.len() - t@.len(),
            i <= t@.len(),
            forall|k: int| 0 <= k < i ==> s@[off + k] == t@[k],
        decreases t.len() - i,
    {
        if s[off + i] != t[i] {
            assert(s@.subrange(off as int, s@.len() as int)[i as int] == s@[off + i]);
            return false;
        }
        i = i + 1;
    }
    assert(s@.subrange(off as int, s@.len() as int) =~= t@);
    true
}

/// A file that must not be deleted: anything inside `.git`, a Cargo or npm
/// manifest, or an environment file.
pub open spec fn critical_file(path: Seq<char>) -> bool {
    ||| text_contains(path, "/.git/"@)
    ||| ends_with(path, "Cargo.toml"@)
    ||| ends_with(path, "package.json"@)
    ||| ends_with(path, ".env"@)
}

/// A command that must not run: one that wipes the root, a fork bomb, a
/// file-system format, or zeroing a device.
pub open spec fn dangerous_command(command: Seq<char>) -> bool {
    ||| text_contains(command, "rm -rf /"@)
    ||| text_contains(command, ":(){ :|:& };:"@)
    ||| text_contains(command, "mkfs"@)
    ||| text_contains(command, "dd if=/dev/zero"@)
}

/// The action is safe: it deletes no critical file and runs no dangerous
/// command.
pub open spec fn action_safe(t: ActionType) -> bool {
    match t {
        ActionType::DeleteFile { path, .. } => !critical_file(path@),
        ActionType::RunCommand { command, .. } => !dangerous_command(command@),
        _ => true,
    }
}

impl Action {
    /// A new action: fresh id, no goal, expected value 0.5, created now,
    /// default bookkeeping.
    pub fn new(action_type: ActionType, description: String) -> (a: Action)
        ensures
            a.action_type == action_type,
            a.description == description,
            a.goal_id is None,
            a.expected_value == 0x3fe0_0000_0000_0000u64,
            a.metadata.risk_level == 0,
            a.metadata.tags@.len() == 0,
    {
        Action {
            id: new_uuid(),
            action_type,
            description,
            goal_id: None,
            expected_value: 0x3fe0_0000_0000_0000u64,
            created_at: now_millis(),
            metadata: ActionMetadata::default(),
        }
    }

    /// The action's id.
    pub fn id(&self) -> (r: u128)
        ensures
            r == self.id,
    {
        self.id
    }

    /// The same action, for a goal.
    pub fn for_goal(self, goal_id: u128) -> (a: Action)
        ensures
            a == (Action { goal_id: Some(goal_id), ..self }),
    {
        Action { goal_id: Some(goal_id), ..self }
    }

    /// The same action with its expected value clamped to `[0.0, 1.0]`.
    pub fn with_expected_value(self, value: u64) -> (a: Action)
        ensures
            a == (Action { expected_value: clamp_unit_bits(value), ..self }),
    {
        let v = clamp_unit_bits_of(value);
        Action { expected_value: v, ..self }
    }

    /// Whether the action is safe (see `action_safe`).
    pub fn is_safe(&self) -> (b: bool)
        ensures
            b == action_safe(self.action_type),
    {
        match &self.action_type {
            ActionType::DeleteFile { path, .. } => !Action::is_critical_file(path),
            ActionType::RunCommand { command, .. } => !Action::is_dangerous_command(command),
            _ => true,
        }
    }

    /// Whether the path names a critical file.
    fn is_critical_file(path: &String) -> (b: bool)
        ensures
            b == critical_file(path@),
    {
        let p = chars_of(path.as_str());
        contains_chars(&p, &chars_of("/.git/")) || ends_with_chars(&p, &chars_of("Cargo.toml"))
            || ends_with_chars(&p, &chars_of("package.json")) || ends_with_chars(&p, &chars_of(".env"))
    }

    /// Whether the command is dangerous.
    fn is_dangerous_command(command: &String) -> (b: bool)
        ensures
            b == dangerous_command(command@),
    {
        let c = chars_of(command.as_str());
        contains_chars(&c, &chars_of("rm -rf /")) || contains_chars(&c, &chars_of(":(){ :|:& };:"))
            || contains_chars(&c, &chars_of("mkfs")) || contains_chars(&c, &chars_of("dd if=/dev/zero"))
    }
}

/// The result of executing an action; `duration` holds the bits of seconds,
/// `completed_at` is milliseconds since the Unix epoch.
#[derive(Debug)]
pub struct ActionResult {
    pub action_id: u128,
    pub success: bool,
    pub output: String,
    pub error: Option<String>,
    pub duration: u64,
    pub completed_at: i64,
    pub changes: Vec<Change>,
}

impl ActionResult {
    /// A successful result, completed now, with no changes.
    pub fn success(action_id: u128, output: String, duration: u64) -> (r: ActionResult)
        ensures
            r.action_id == action_id,
            r.success,
            r.output == output,
            r.error is None,
            r.duration == duration,
            r.changes@.len() == 0,
    {
        ActionResult {
            action_id,
            success: true,
            output,
            error: None,
            duration,
            completed_at: now_millis(),
            changes: Vec::new(),
        }
    }

    /// A failed result, completed now, with no output or changes.
    pub fn failure(action_id: u128, error: String, duration: u64) -> (r: ActionResult)
        ensures
            r.action_id == action_id,
            !r.success,
            r.output@.len() == 0,
            r.error == Some(error),
            r.duration == duration,
            r.changes@.len() == 0,
    {
        ActionResult {
            action_id,
            success: false,
            output: String::new(),
            error: Some(error),
            duration,
            completed_at: now_millis(),
            changes: Vec::new(),
        }
    }

    /// The same result with one more change.
    pub fn with_change(self, change: Change) -> (r: ActionResult)
        ensures
            r.changes@ == self.changes@.push(change),
            r.action_id == self.action_id,
            r.success == self.success,
            r.output == self.output,
            r.error == self.error,
            r.duration == self.duration,
            r.completed_at == self.completed_at,
    {
        let mut r = self;
        r.changes.push(change);
        r
    }
}

/// A decision about an action: its kind, the reason, alternatives to it, and
/// when to retry.
#[derive(Debug)]
pub struct ActionDecision {
    pub decision_type: DecisionType,
    pub reason: String,
    pub alternatives: Vec<Action>,
    pub retry_after: Option<std::time::Duration>,
}

impl ActionDecision {
    /// Approve the action: `Action approved: ` and its description.
    pub fn approve(action: &Action) -> (d: ActionDecision)
        ensures
            d.decision_type == DecisionType::Approve,
            d.reason@ == "Action approved: "@ + action.description@,
            d.alternatives@.len() == 0,
            d.retry_after is None,
    {
        ActionDecision {
            decision_type: DecisionType::Approve,
            reason: concat_text("Action approved: ", &action.description),
            alternatives: Vec::new(),
            retry_after: None,
        }
    }

    /// Reject, for this reason.
    pub fn reject(reason: String) -> (d: ActionDecision)
        ensures
            d.decision_type == DecisionType::Reject,
            d.reason == reason,
            d.alternatives@.len() == 0,
            d.retry_after is None,
    {
        ActionDecision { decision_type: DecisionType::Reject, reason, alternatives: Vec::new(), retry_after: None }
    }

    /// Reject the action and propose alternatives: `Rejected '`, its
    /// description, `': ` and the reason.
    pub fn propose_alternative(rejected: &Action, reason: String, alternatives: Vec<Action>) -> (d: ActionDecision)
        ensures
            d.decision_type == DecisionType::ProposeAlternative,
            d.reason@ == "Rejected '"@ + rejected.description@ + "': "@ + reason@,
            d.alternatives == alternatives,
            d.retry_after is None,
    {
        let head = concat_text("Rejected '", &rejected.description);
        let mut v = chars_of(head.as_str());
        let mut mid = chars_of("': ");
        let mut tail = chars_of(reason.as_str());
        v.append(&mut mid);
        v.append(&mut tail);
        ActionDecision {
            decision_type: DecisionType::ProposeAlternative,
            reason: crate::text::string_from_chars(&v),
            alternatives,
            retry_after: None,
        }
    }

    /// Skip, for this reason.
    pub fn skip(reason: String) -> (d: ActionDecision)
        ensures
            d.decision_type == DecisionType::Skip,
            d.reason == reason,
            d.alternatives@.len() == 0,
            d.retry_after is None,
    {
        ActionDecision { decision_type: DecisionType::Skip, reason, alternatives: Vec::new(), retry_after: None }
    }

    /// Defer, for this reason, retrying after the given time.
    pub fn defer(reason: String, retry_after: std::time::Duration) -> (d: ActionDecision)
        ensures
            d.decision_type == DecisionType::Defer,
            d.reason == reason,
            d.alternatives@.len() == 0,
            d.retry_after == Some(retry_after),
    {
        ActionDecision {
            decision_type: DecisionType::Defer,
            reason,
            alternatives: Vec::new(),
            retry_after: Some(retry_after),
        }
    }

    /// Whether the action was approved.
    pub fn is_approved(&self) -> (b: bool)
        ensures
            b == (self.decision_type == DecisionType::Approve),
    {
        self.decision_type == DecisionType::Approve
    }
}

} // verus!
