//! Condensing chat turns: splitting the history into runs of turns, one per
//! frame, and the type, summary, key points and outcome of each run; anchors
//! to the important turns.

use vstd::prelude::*;
use crate::compaction::engine::{ChatTurn, MessageFlag, TurnType, turn_is_decision, turn_is_error, turn_is_milestone};
use crate::compaction::frames::{AnchorRef, FrameType};
use crate::text::{concat_text, decimal_chars, decimal_text, string_from_chars};

verus! {

/// A run of consecutive turns that becomes one frame: the turn numbers it
/// spans, and the positions `lo..hi` of its turns in the history.
#[derive(Debug, Clone, Copy, PartialEq, Eq, Structural)]
pub struct TurnGroup {
    pub first_turn: u32,
    pub last_turn: u32,
    pub lo: usize,
    pub hi: usize,
}

/// The grouping scan after the first `k` turns: the runs closed so far, the
/// turn number the open run starts at, the position of its first turn, how
/// many turns were taken (the scan stops at the first turn after `current`),
/// and whether every step stayed within `u32` (no subtraction below zero, no
/// turn number past `u32::MAX`).
pub open spec fn group_scan(turns: Seq<ChatTurn>, current: u32, max: u32, k: int) -> (
    Seq<TurnGroup>,
    int,
    int,
    int,
    bool,
)
    decreases k,
{
    if k <= 0 {
        (Seq::empty(), 0, 0, 0, true)
    } else {
        let prev = group_scan(turns, current, max, k - 1);
        let t = turns[k - 1].turn_number;
        if prev.3 < k - 1 || t > current {
            prev
        } else {
            let fits = prev.4 && t >= prev.1;
            if t - prev.1 >= max || t % max == 0 {
                (
                    prev.0.push(
                        TurnGroup {
                            first_turn: prev.1 as u32,
                            last_turn: t,
                            lo: prev.2 as usize,
                            hi: k as usize,
                        },
                    ),
                    t + 1,
                    k,
                    k,
                    fits && t + 1 <= u32::MAX,
                )
            } else {
                (prev.0, prev.1, prev.2, k, fits)
            }
        }
    }
}

/// The runs of turns, one per frame: turns are taken in order up to the first
/// one after `current`; a run closes at a turn that is at least `max` past the
/// run's start, or whose number is a multiple of `max`; what is left forms a
/// last run.
pub open spec fn turn_groups(turns: Seq<ChatTurn>, current: u32, max: u32) -> Seq<TurnGroup> {
    let s = group_scan(turns, current, max, turns.len() as int);
    if s.2 < s.3 {
        s.0.push(
            TurnGroup {
                first_turn: s.1 as u32,
                last_turn: turns[s.3 - 1].turn_number,
                lo: s.2 as usize,
                hi: s.3 as usize,
            },
        )
    } else {
        s.0
    }
}

/// Grouping stays within `u32`: turn numbers never fall below the start of
/// the open run, and no run closes at `u32::MAX`.
pub open spec fn grouping_fits(turns: Seq<ChatTurn>, current: u32, max: u32) -> bool {
    group_scan(turns, current, max, turns.len() as int).4
}

/// Once a step leaves `u32`, the scan never fits again.
proof fn lemma_scan_fits_prefix(turns: Seq<ChatTurn>, current: u32, max: u32, i: int, k: int)
    requires
        0 <= i <= k,
        group_scan(turns, current, max, k).4,
    ensures
        group_scan(turns, current, max, i).4,
    decreases k - i,
{
    if i < k {
        lemma_scan_fits_prefix(turns, current, max, i + 1, k);
    }
}

/// Once the scan stops, its state stays.
proof fn lemma_scan_stopped(turns: Seq<ChatTurn>, current: u32, max: u32, i: int, k: int)
    requires
        0 <= i <= k,
        group_scan(turns, current, max, i).3 < i,
    ensures
        group_scan(turns, current, max, k) == group_scan(turns, current, max, i),
    decreases k - i,
{
    if i < k {
        lemma_scan_stopped(turns, current, max, i, k - 1);
    }
}

/// The scan's positions stay in order.
proof fn lemma_scan_bounds(turns: Seq<ChatTurn>, current: u32, max: u32, k: int)
    requires
        0 <= k,
    ensures
        0 <= group_scan(turns, current, max, k).2 <= group_scan(turns, current, max, k).3 <= k,
    decreases k,
{
    if k > 0 {
        lemma_scan_bounds(turns, current, max, k - 1);
    }
}

/// The runs of turns and whether grouping stays within `u32`; the runs are
/// those of `turn_groups` when it does.
pub fn group_turns(turns: &Vec<ChatTurn>, current: u32, max: u32) -> (r: (Vec<TurnGroup>, bool))
    requires
        max > 0,
    ensures
        r.1 == grouping_fits(turns@, current, max),
        r.1 ==> r.0@ == turn_groups(turns@, current, max),
{
    let n = turns.len();
    let mut groups: Vec<TurnGroup> = Vec::new();
    let mut start: u32 = 0;
    let mut first: usize = 0;
    let mut count: usize = 0;
    let mut i: usize = 0;
    let mut stop = false;
    while i < n && !stop
        invariant
            n == turns@.len(),
            max > 0,
            i <= n,
            first <= count <= i,
            stop <==> count < i,
            group_scan(turns@, current, max, i as int) == (
                groups@,
                start as int,
                first as int,
                count as int,
                true,
            ),
        decreases n - i,
    {
        let t = turns[i].turn_number;
        if t > current {
            stop = true;
        } else {
            if t < start {
                proof {
                    lemma_scan_fits_prefix_neg(turns@, current, max, i as int + 1);
                }
                return (groups, false);
            }
            if t - start >= max || t % max == 0 {
                if t == u32::MAX {
                    proof {
                        lemma_scan_fits_prefix_neg(turns@, current, max, i as int + 1);
                    }
                    return (groups, false);
                }
                groups.push(TurnGroup { first_turn: start, last_turn: t, lo: first, hi: i + 1 });
                start = t + 1;
                first = i + 1;
            }
            count = i + 1;
        }
        i = i + 1;
    }
    proof {
        if stop {
            lemma_scan_stopped(turns@, current, max, i as int, n as int);
        }
    }
    if first < count {
        groups.push(
            TurnGroup { first_turn: start, last_turn: turns[count - 1].turn_number, lo: first, hi: count },
        );
    }
    (groups, true)
}

/// A scan that fails at step `k` fails at the end.
proof fn lemma_scan_fits_prefix_neg(turns: Seq<ChatTurn>, current: u32, max: u32, k: int)
    requires
        0 <= k <= turns.len(),
        !group_scan(turns, current, max, k).4,
    ensures
        !grouping_fits(turns, current, max),
{
    if grouping_fits(turns, current, max) {
        lemma_scan_fits_prefix(turns, current, max, k, turns.len() as int);
    }
}

/// The scan's runs and positions lie within the turns taken.
proof fn lemma_scan_in_range(turns: Seq<ChatTurn>, current: u32, max: u32, k: int)
    requires
        0 <= k <= turns.len() <= usize::MAX,
    ensures
        0 <= group_scan(turns, current, max, k).2 <= group_scan(turns, current, max, k).3 <= k,
        forall|j: int|
            0 <= j < group_scan(turns, current, max, k).0.len() ==> (#[trigger] group_scan(
                turns,
                current,
                max,
                k,
            ).0[j]).lo <= group_scan(turns, current, max, k).0[j].hi <= k,
    decreases k,
{
    if k > 0 {
        lemma_scan_in_range(turns, current, max, k - 1);
    }
}

/// Every run lies within the turns.
pub proof fn lemma_groups_in_range(turns: Seq<ChatTurn>, current: u32, max: u32, i: int)
    requires
        turns.len() <= usize::MAX,
        0 <= i < turn_groups(turns, current, max).len(),
    ensures
        turn_groups(turns, current, max)[i].lo <= turn_groups(turns, current, max)[i].hi <= turns.len(),
{
    lemma_scan_in_range(turns, current, max, turns.len() as int);
}

/// Some turn of the run reports an error.
pub open spec fn any_error(turns: Seq<ChatTurn>) -> bool {
    exists|i: int| 0 <= i < turns.len() && turn_is_error(#[trigger] turns[i])
}

/// Some turn of the run holds a decision.
pub open spec fn any_decision(turns: Seq<ChatTurn>) -> bool {
    exists|i: int| 0 <= i < turns.len() && turn_is_decision(#[trigger] turns[i])
}

/// Some turn of the run is a milestone.
pub open spec fn any_milestone(turns: Seq<ChatTurn>) -> bool {
    exists|i: int| 0 <= i < turns.len() && turn_is_milestone(#[trigger] turns[i])
}

/// The frame type of a run: an error anywhere makes it an error frame, else a
/// decision a decision frame, else a milestone a milestone frame; otherwise a
/// summary frame.
pub open spec fn frame_type_of(turns: Seq<ChatTurn>) -> FrameType {
    if any_error(turns) {
        FrameType::Error
    } else if any_decision(turns) {
        FrameType::Decision
    } else if any_milestone(turns) {
        FrameType::Milestone
    } else {
        FrameType::Summary
    }
}

/// The frame type of the turns at positions `lo..hi`.
pub fn classify_frame_type(turns: &Vec<ChatTurn>, lo: usize, hi: usize) -> (t: FrameType)
    requires
        lo <= hi <= turns@.len(),
    ensures
        t == frame_type_of(turns@.subrange(lo as int, hi as int)),
{
    let ghost part = turns@.subrange(lo as int, hi as int);
    let mut error = false;
    let mut decision = false;
    let mut milestone = false;
    let mut i: usize = lo;
    while i < hi
        invariant
            lo <= i <= hi <= turns@.len(),
            part == turns@.subrange(lo as int, hi as int),
            error <==> exists|j: int| 0 <= j < i - lo && turn_is_error(#[trigger] part[j]),
            decision <==> exists|j: int| 0 <= j < i - lo && turn_is_decision(#[trigger] part[j]),
            milestone <==> exists|j: int| 0 <= j < i - lo && turn_is_milestone(#[trigger] part[j]),
        decreases hi - i,
    {
        assert(part[i - lo] == turns@[i as int]);
        if turns[i].is_error() {
            error = true;
        }
        if turns[i].is_decision() {
            decision = true;
        }
        if turns[i].is_milestone() {
            milestone = true;
        }
        i = i + 1;
    }
    if error {
        FrameType::Error
    } else if decision {
        FrameType::Decision
    } else if milestone {
        FrameType::Milestone
    } else {
        FrameType::Summary
    }
}

/// The turn deserves an anchor: it is no later than `current` and reports an
/// error, holds a decision or is a milestone.
pub open spec fn anchored(t: ChatTurn, current: u32) -> bool {
    t.turn_number <= current && (turn_is_error(t) || turn_is_decision(t) || turn_is_milestone(t))
}

/// The relevance of an anchored turn, as the bits of a fraction: 0.95 for an
/// error, else 0.90 for a decision, else 0.85 for a milestone.
pub open spec fn anchor_relevance(t: ChatTurn) -> u64 {
    if turn_is_error(t) {
        0x3fee_6666_6666_6666
    } else if turn_is_decision(t) {
        0x3fec_cccc_cccc_cccd
    } else {
        0x3feb_3333_3333_3333
    }
}

/// The anchored turns, in order.
pub open spec fn anchored_turns(turns: Seq<ChatTurn>, current: u32) -> Seq<ChatTurn>
    decreases turns.len(),
{
    if turns.len() == 0 {
        Seq::empty()
    } else if anchored(turns.last(), current) {
        anchored_turns(turns.drop_last(), current).push(turns.last())
    } else {
        anchored_turns(turns.drop_last(), current)
    }
}

/// The address of a turn: `intent://local/turn/` and its number.
pub open spec fn anchor_uri(n: u32) -> Seq<char> {
    "intent://local/turn/"@ + decimal_text(n as nat)
}

/// The anchor points at the turn, with the turn's relevance and address,
/// and no label.
pub open spec fn anchor_for(a: AnchorRef, t: ChatTurn) -> bool {
    &&& a.turn_number == t.turn_number
    &&& a.relevance_score == anchor_relevance(t)
    &&& a.jump_uri@ == anchor_uri(t.turn_number)
    &&& a.label is None
}

/// Anchors to the important turns up to `current`, in order.
pub fn extract_anchors(turns: &Vec<ChatTurn>, current: u32) -> (r: Vec<AnchorRef>)
    ensures
        r@.len() == anchored_turns(turns@, current).len(),
        forall|i: int| 0 <= i < r@.len() ==> anchor_for(#[trigger] r@[i], anchored_turns(turns@, current)[i]),
{
    let mut anchors: Vec<AnchorRef> = Vec::new();
    let mut i: usize = 0;
    proof {
        assert(turns@.take(0) =~= Seq::<ChatTurn>::empty());
    }
    while i < turns.len()
        invariant
            i <= turns@.len(),
            anchors@.len() == anchored_turns(turns@.take(i as int), current).len(),
            forall|k: int|
                0 <= k < anchors@.len() ==> anchor_for(
                    #[trigger] anchors@[k],
                    anchored_turns(turns@.take(i as int), current)[k],
                ),
        decreases turns.len() - i,
    {
        let t = &turns[i];
        proof {
            assert(turns@.take(i as int + 1).drop_last() =~= turns@.take(i as int));
            assert(turns@.take(i as int + 1).last() == turns@[i as int]);
        }
        if t.turn_number <= current {
            let error = t.is_error();
            let decision = t.is_decision();
            let milestone = t.is_milestone();
            if error || decision || milestone {
                let relevance: u64 = if error {
                    0x3fee_6666_6666_6666
                } else if decision {
                    0x3fec_cccc_cccc_cccd
                } else {
                    0x3feb_3333_3333_3333
                };
                let digits = decimal_chars(t.turn_number as u64);
                let number = string_from_chars(&digits);
                let uri = concat_text("intent://local/turn/", &number);
                let anchor = AnchorRef::new(t.turn_number, relevance, uri);
                let ghost before = anchors@;
                anchors.push(anchor);
                proof {
                    let sofar = anchored_turns(turns@.take(i as int + 1), current);
                    assert(sofar == anchored_turns(turns@.take(i as int), current).push(turns@[i as int]));
                    assert forall|k: int| 0 <= k < anchors@.len() implies anchor_for(
                        #[trigger] anchors@[k],
                        sofar[k],
                    ) by {
                        if k < before.len() {
                            assert(anchors@[k] == before[k]);
                        }
                    }
                }
            }
        }
        i = i + 1;
    }
    proof {
        assert(turns@.take(turns@.len() as int) =~= turns@);
    }
    anchors
}

/// How a run of turns is classified: an error turn anywhere makes an error
/// frame; failing that, a decision turn (of type `Decision`, or with a
/// message flagged a decision) makes a decision frame; failing that, a
/// milestone turn makes a milestone frame; a run with none of these is a
/// summary frame.
pub proof fn law_frame_type_by_turns(turns: Seq<ChatTurn>, i: int)
    requires
        0 <= i < turns.len(),
    ensures
        turn_is_error(turns[i]) ==> frame_type_of(turns) == FrameType::Error,
        turn_is_decision(turns[i]) && (forall|j: int| 0 <= j < turns.len() ==> !turn_is_error(#[trigger] turns[j]))
            ==> frame_type_of(turns) == FrameType::Decision,
        turns[i].turn_type == TurnType::Decision && (forall|j: int|
            0 <= j < turns.len() ==> !turn_is_error(#[trigger] turns[j])) ==> frame_type_of(turns)
            == FrameType::Decision,
        (exists|k: int|
            0 <= k < turns[i].messages@.len() && (#[trigger] turns[i].messages@[k]).metadata.message_flags@.contains(
                MessageFlag::Decision,
            )) && (forall|j: int| 0 <= j < turns.len() ==> !turn_is_error(#[trigger] turns[j]))
            ==> frame_type_of(turns) == FrameType::Decision,
        turn_is_milestone(turns[i]) && (forall|j: int|
            0 <= j < turns.len() ==> !turn_is_error(#[trigger] turns[j]) && !turn_is_decision(turns[j]))
            ==> frame_type_of(turns) == FrameType::Milestone,
        frame_type_of(turns) == FrameType::Summary ==> !turn_is_error(turns[i]) && !turn_is_decision(turns[i])
            && !turn_is_milestone(turns[i]),
{
    if turns[i].turn_type == TurnType::Decision {
        assert(turn_is_decision(turns[i]));
    }
    if exists|k: int|
        0 <= k < turns[i].messages@.len() && (#[trigger] turns[i].messages@[k]).metadata.message_flags@.contains(
            MessageFlag::Decision,
        ) {
        assert(turn_is_decision(turns[i]));
    }
}

} // verus!
