//! Chat history and the compaction engine.

use vstd::prelude::*;
use vstd::utf8::encode_utf8;
use crate::compaction::condense::{
    anchor_for, anchored_turns, classify_frame_type, extract_anchors, frame_type_of, group_turns,
    grouping_fits, turn_groups, TurnGroup,
};
use crate::compaction::digest::{
    key_points_of, key_points_of_turns, lemma_key_points_shaped, lemma_outcome_bytes,
    lemma_points_tokens_bound, lemma_summary_bytes, opt_view, outcome_of, outcome_of_turns,
    summary_fits, summary_of, summary_text,
};
use crate::compaction::frames::{
    byte_len_u32, content_tokens, max_last_turn, CompressionLevel, FrameContent,
    PinnedLightweightTranscript, SummaryFrame,
};
use crate::strings::views;
use crate::compaction::policy::{CompactionConfig, CompactionTrigger};
use crate::manifold::now_millis;
use crate::string_map::StringMap;
use crate::text::{lowercase, lowercase_contains, text_contains};

verus! {

/// How strongly frames are compressed.
pub struct CompressionStrategy {
    /// Maximum summary length in characters
    pub max_summary_length: usize,
    /// Maximum key points per frame
    pub max_key_points: usize,
    /// Whether outcomes are kept
    pub preserve_outcomes: bool,
    /// Maximum turns per frame
    pub max_turns_per_frame: u32,
}

impl CompressionStrategy {
    /// L0 (no compression): 500 characters, 10 key points, outcomes kept, 5 turns per frame.
    pub fn l0() -> (s: CompressionStrategy)
        ensures
            s.max_summary_length == 500,
            s.max_key_points == 10,
            s.preserve_outcomes,
            s.max_turns_per_frame == 5,
    {
        CompressionStrategy {
            max_summary_length: 500,
            max_key_points: 10,
            preserve_outcomes: true,
            max_turns_per_frame: 5,
        }
    }

    /// L1 (standard): 100 characters, 5 key points, outcomes kept, 20 turns per frame.
    pub fn l1() -> (s: CompressionStrategy)
        ensures
            s.max_summary_length == 100,
            s.max_key_points == 5,
            s.preserve_outcomes,
            s.max_turns_per_frame == 20,
    {
        CompressionStrategy {
            max_summary_length: 100,
            max_key_points: 5,
            preserve_outcomes: true,
            max_turns_per_frame: 20,
        }
    }

    /// L2 (aggressive): 50 characters, 3 key points, outcomes dropped, 50 turns per frame.
    pub fn l2() -> (s: CompressionStrategy)
        ensures
            s.max_summary_length == 50,
            s.max_key_points == 3,
            !s.preserve_outcomes,
            s.max_turns_per_frame == 50,
    {
        CompressionStrategy {
            max_summary_length: 50,
            max_key_points: 3,
            preserve_outcomes: false,
            max_turns_per_frame: 50,
        }
    }

    /// The strategy of a compression level.
    pub fn from_level(level: CompressionLevel) -> (s: CompressionStrategy)
        ensures
            level == CompressionLevel::L0 ==> s == CompressionStrategy::spec_l0(),
            level == CompressionLevel::L1 ==> s == CompressionStrategy::spec_l1(),
            level == CompressionLevel::L2 ==> s == CompressionStrategy::spec_l2(),
    {
        match level {
            CompressionLevel::L0 => CompressionStrategy::l0(),
            CompressionLevel::L1 => CompressionStrategy::l1(),
            CompressionLevel::L2 => CompressionStrategy::l2(),
        }
    }

    /// One of the three standard strategies.
    pub open spec fn is_standard(self) -> bool {
        self == CompressionStrategy::spec_l0() || self == CompressionStrategy::spec_l1() || self
            == CompressionStrategy::spec_l2()
    }

    /// The L0 strategy.
    pub open spec fn spec_l0() -> CompressionStrategy {
        CompressionStrategy {
            max_summary_length: 500,
            max_key_points: 10,
            preserve_outcomes: true,
            max_turns_per_frame: 5,
        }
    }

    /// The L1 strategy.
    pub open spec fn spec_l1() -> CompressionStrategy {
        CompressionStrategy {
            max_summary_length: 100,
            max_key_points: 5,
            preserve_outcomes: true,
            max_turns_per_frame: 20,
        }
    }

    /// The L2 strategy.
    pub open spec fn spec_l2() -> CompressionStrategy {
        CompressionStrategy {
            max_summary_length: 50,
            max_key_points: 3,
            preserve_outcomes: false,
            max_turns_per_frame: 50,
        }
    }
}

/// Message role.
#[derive(Debug, Clone, Copy, PartialEq, Eq, Structural)]
pub enum MessageRole {
    User,
    Assistant,
    System,
}

/// Message flags.
#[derive(Debug, Clone, Copy, PartialEq, Eq, Structural)]
pub enum MessageFlag {
    Error,
    Decision,
    Milestone,
    Code,
    ToolUse,
}

/// Turn type.
#[derive(Debug, Clone, Copy, PartialEq, Eq, Structural)]
pub enum TurnType {
    Standard,
    Error,
    Decision,
    Milestone,
}

/// Message metadata.
pub struct MessageMetadata {
    pub message_flags: Vec<MessageFlag>,
    pub additional_data: StringMap,
}

impl MessageMetadata {
    /// No flags and no data.
    pub fn empty() -> (m: MessageMetadata)
        ensures
            m.message_flags@.len() == 0,
            m.additional_data.wf(),
            m.additional_data@ == Map::<Seq<char>, Seq<char>>::empty(),
    {
        MessageMetadata { message_flags: Vec::new(), additional_data: StringMap::new() }
    }
}

/// Whether `flags` holds `f`.
fn has_flag(flags: &Vec<MessageFlag>, f: MessageFlag) -> (r: bool)
    ensures
        r == flags@.contains(f),
{
    let mut i: usize = 0;
    while i < flags.len()
        invariant
            i <= flags@.len(),
            forall|j: int| 0 <= j < i ==> flags@[j] != f,
        decreases flags.len() - i,
    {
        if flags[i] == f {
            return true;
        }
        i = i + 1;
    }
    false
}

/// A chat message.
pub struct ChatMessage {
    pub role: MessageRole,
    pub content: String,
    pub metadata: MessageMetadata,
}

/// A message counts as an error: its lowercase text holds "error", or it is
/// flagged so.
pub open spec fn message_is_error(m: ChatMessage) -> bool {
    text_contains(lowercase(m.content@), seq!['e', 'r', 'r', 'o', 'r']) || m.metadata.message_flags@.contains(
        MessageFlag::Error,
    )
}

/// Estimated tokens of a message: its length in bytes over four (as `u32`).
pub open spec fn message_tokens(m: ChatMessage) -> u32 {
    ((encode_utf8(m.content@).len() as usize) / 4) as u32
}

impl ChatMessage {
    /// A message without flags or data.
    pub fn new(role: MessageRole, content: String) -> (m: ChatMessage)
        ensures
            m.role == role,
            m.content == content,
            m.metadata.message_flags@.len() == 0,
            m.metadata.additional_data.wf(),
    {
        ChatMessage { role, content, metadata: MessageMetadata::empty() }
    }

    /// Whether the message reports an error.
    pub fn is_error(&self) -> (b: bool)
        ensures
            b == message_is_error(*self),
    {
        let found = lowercase_contains(&self.content, "error");
        proof {
            reveal_strlit("error");
            assert("error"@ =~= seq!['e', 'r', 'r', 'o', 'r']);
        }
        found || has_flag(&self.metadata.message_flags, MessageFlag::Error)
    }

    /// Whether the message is flagged as a decision.
    pub fn is_decision(&self) -> (b: bool)
        ensures
            b == self.metadata.message_flags@.contains(MessageFlag::Decision),
    {
        has_flag(&self.metadata.message_flags, MessageFlag::Decision)
    }

    /// Whether the message is flagged as a milestone.
    pub fn is_milestone(&self) -> (b: bool)
        ensures
            b == self.metadata.message_flags@.contains(MessageFlag::Milestone),
    {
        has_flag(&self.metadata.message_flags, MessageFlag::Milestone)
    }

    /// Estimated tokens: about four bytes per token.
    pub fn estimated_tokens(&self) -> (n: u32)
        ensures
            n == message_tokens(*self),
    {
        #[verifier::truncate] ((self.content.as_str().len() / 4) as u32)
    }
}

/// A single chat turn; the timestamp is milliseconds since the Unix epoch.
pub struct ChatTurn {
    pub turn_number: u32,
    pub timestamp: i64,
    pub messages: Vec<ChatMessage>,
    pub turn_type: TurnType,
}

/// The turn is an error turn, or one of its messages reports an error.
pub open spec fn turn_is_error(t: ChatTurn) -> bool {
    t.turn_type == TurnType::Error || exists|i: int|
        0 <= i < t.messages@.len() && message_is_error(#[trigger] t.messages@[i])
}

/// The turn is a decision turn, or one of its messages is flagged a decision.
pub open spec fn turn_is_decision(t: ChatTurn) -> bool {
    t.turn_type == TurnType::Decision || exists|i: int|
        0 <= i < t.messages@.len() && (#[trigger] t.messages@[i]).metadata.message_flags@.contains(
            MessageFlag::Decision,
        )
}

/// The turn is a milestone turn, or one of its messages is flagged a milestone.
pub open spec fn turn_is_milestone(t: ChatTurn) -> bool {
    t.turn_type == TurnType::Milestone || exists|i: int|
        0 <= i < t.messages@.len() && (#[trigger] t.messages@[i]).metadata.message_flags@.contains(
            MessageFlag::Milestone,
        )
}

/// The messages' token estimates, summed.
pub open spec fn messages_tokens(v: Seq<ChatMessage>) -> int
    decreases v.len(),
{
    if v.len() == 0 {
        0
    } else {
        messages_tokens(v.drop_last()) + message_tokens(v.last())
    }
}

/// The turns' token estimates, summed.
pub open spec fn turns_tokens(v: Seq<ChatTurn>) -> int
    decreases v.len(),
{
    if v.len() == 0 {
        0
    } else {
        turns_tokens(v.drop_last()) + messages_tokens(v.last().messages@)
    }
}

/// Sums over prefixes of message lists never exceed the whole sum.
proof fn lemma_messages_tokens_prefix(v: Seq<ChatMessage>)
    ensures
        forall|j: int| 0 <= j <= v.len() ==> messages_tokens(#[trigger] v.take(j)) <= messages_tokens(v),
    decreases v.len(),
{
    if v.len() > 0 {
        lemma_messages_tokens_prefix(v.drop_last());
        assert forall|j: int| 0 <= j <= v.len() implies messages_tokens(#[trigger] v.take(j)) <= messages_tokens(v) by {
            if j < v.len() {
                assert(v.take(j) =~= v.drop_last().take(j));
            } else {
                assert(v.take(j) =~= v);
            }
        }
    } else {
        assert forall|j: int| 0 <= j <= v.len() implies messages_tokens(#[trigger] v.take(j)) <= messages_tokens(v) by {
            assert(v.take(j) =~= v);
        }
    }
}

/// Sums over prefixes of turn lists never exceed the whole sum.
proof fn lemma_turns_tokens_prefix(v: Seq<ChatTurn>)
    ensures
        forall|j: int| 0 <= j <= v.len() ==> turns_tokens(#[trigger] v.take(j)) <= turns_tokens(v),
    decreases v.len(),
{
    if v.len() > 0 {
        lemma_turns_tokens_prefix(v.drop_last());
        lemma_messages_tokens_nonneg(v.last().messages@);
        assert forall|j: int| 0 <= j <= v.len() implies turns_tokens(#[trigger] v.take(j)) <= turns_tokens(v) by {
            if j < v.len() {
                assert(v.take(j) =~= v.drop_last().take(j));
            } else {
                assert(v.take(j) =~= v);
            }
        }
    } else {
        assert forall|j: int| 0 <= j <= v.len() implies turns_tokens(#[trigger] v.take(j)) <= turns_tokens(v) by {
            assert(v.take(j) =~= v);
        }
    }
}

impl ChatTurn {
    /// A standard turn with these messages, stamped now.
    pub fn new(turn_number: u32, messages: Vec<ChatMessage>) -> (t: ChatTurn)
        ensures
            t.turn_number == turn_number,
            t.messages == messages,
            t.turn_type == TurnType::Standard,
    {
        ChatTurn { turn_number, timestamp: now_millis(), messages, turn_type: TurnType::Standard }
    }

    /// Whether the turn holds an error.
    pub fn is_error(&self) -> (b: bool)
        ensures
            b == turn_is_error(*self),
    {
        if self.turn_type == TurnType::Error {
            return true;
        }
        let mut i: usize = 0;
        while i < self.messages.len()
            invariant
                i <= self.messages@.len(),
                forall|j: int| 0 <= j < i ==> !message_is_error(#[trigger] self.messages@[j]),
            decreases self.messages.len() - i,
        {
            if self.messages[i].is_error() {
                return true;
            }
            i = i + 1;
        }
        false
    }

    /// Whether the turn holds a decision.
    pub fn is_decision(&self) -> (b: bool)
        ensures
            b == turn_is_decision(*self),
    {
        if self.turn_type == TurnType::Decision {
            return true;
        }
        let mut i: usize = 0;
        while i < self.messages.len()
            invariant
                i <= self.messages@.len(),
                forall|j: int| 0 <= j < i ==> !(#[trigger] self.messages@[j]).metadata.message_flags@.contains(
                    MessageFlag::Decision,
                ),
            decreases self.messages.len() - i,
        {
            if self.messages[i].is_decision() {
                return true;
            }
            i = i + 1;
        }
        false
    }

    /// Whether the turn is a milestone.
    pub fn is_milestone(&self) -> (b: bool)
        ensures
            b == turn_is_milestone(*self),
    {
        if self.turn_type == TurnType::Milestone {
            return true;
        }
        let mut i: usize = 0;
        while i < self.messages.len()
            invariant
                i <= self.messages@.len(),
                forall|j: int| 0 <= j < i ==> !(#[trigger] self.messages@[j]).metadata.message_flags@.contains(
                    MessageFlag::Milestone,
                ),
            decreases self.messages.len() - i,
        {
            if self.messages[i].is_milestone() {
                return true;
            }
            i = i + 1;
        }
        false
    }

    /// The messages' token estimates, summed.
    pub fn estimated_tokens(&self) -> (n: u32)
        requires
            messages_tokens(self.messages@) <= u32::MAX,
        ensures
            n == messages_tokens(self.messages@),
    {
        proof {
            lemma_messages_tokens_prefix(self.messages@);
        }
        let mut n: u32 = 0;
        let mut i: usize = 0;
        while i < self.messages.len()
            invariant
                i <= self.messages@.len(),
                n == messages_tokens(self.messages@.take(i as int)),
                messages_tokens(self.messages@) <= u32::MAX,
                forall|k: int| 0 <= k <= self.messages@.len() ==>
                    messages_tokens(#[trigger] self.messages@.take(k)) <= messages_tokens(self.messages@),
            decreases self.messages.len() - i,
        {
            proof {
                assert(self.messages@.take(i as int + 1).drop_last() =~= self.messages@.take(i as int));
            }
            n = n + self.messages[i].estimated_tokens();
            i = i + 1;
        }
        proof {
            assert(self.messages@.take(self.messages@.len() as int) == self.messages@);
        }
        n
    }
}

/// The chat history of a run.
pub struct ChatHistory {
    pub run_id: String,
    pub turns: Vec<ChatTurn>,
}

impl ChatHistory {
    /// An empty history.
    pub fn new(run_id: String) -> (h: ChatHistory)
        ensures
            h.run_id == run_id,
            h.turns@.len() == 0,
    {
        ChatHistory { run_id, turns: Vec::new() }
    }

    /// Append a turn.
    pub fn add_turn(&mut self, turn: ChatTurn)
        ensures
            final(self).turns@ == old(self).turns@.push(turn),
            final(self).run_id == old(self).run_id,
    {
        self.turns.push(turn);
    }

    /// The turns' token estimates, summed.
    pub fn estimated_tokens(&self) -> (n: u32)
        requires
            turns_tokens(self.turns@) <= u32::MAX,
        ensures
            n == turns_tokens(self.turns@),
    {
        proof {
            lemma_turns_tokens_prefix(self.turns@);
        }
        let mut n: u32 = 0;
        let mut i: usize = 0;
        while i < self.turns.len()
            invariant
                i <= self.turns@.len(),
                n == turns_tokens(self.turns@.take(i as int)),
                turns_tokens(self.turns@) <= u32::MAX,
                forall|k: int| 0 <= k <= self.turns@.len() ==>
                    turns_tokens(#[trigger] self.turns@.take(k)) <= turns_tokens(self.turns@),
            decreases self.turns.len() - i,
        {
            proof {
                assert(self.turns@.take(i as int + 1).drop_last() =~= self.turns@.take(i as int));
                lemma_messages_tokens_nonneg(self.turns@[i as int].messages@);
            }
            n = n + self.turns[i].estimated_tokens();
            i = i + 1;
        }
        proof {
            assert(self.turns@.take(self.turns@.len() as int) == self.turns@);
        }
        n
    }
}

/// Token sums are never negative.
proof fn lemma_messages_tokens_nonneg(v: Seq<ChatMessage>)
    ensures
        messages_tokens(v) >= 0,
    decreases v.len(),
{
    if v.len() > 0 {
        lemma_messages_tokens_nonneg(v.drop_last());
    }
}

/// The compaction engine: when to compact, and how strongly.
pub struct CompactionEngine {
    pub trigger_policy: CompactionTrigger,
    pub compression_strategy: CompressionStrategy,
}

/// The compression level a target names.
pub open spec fn level_of(t: crate::compaction::policy::CompressionTarget) -> CompressionLevel {
    match t {
        crate::compaction::policy::CompressionTarget::L0 => CompressionLevel::L0,
        crate::compaction::policy::CompressionTarget::L1 => CompressionLevel::L1,
        crate::compaction::policy::CompressionTarget::L2 => CompressionLevel::L2,
    }
}

/// The frame condenses run `g` of `turns` under strategy `s`: its range is
/// the run's, its type, summary, key points and outcome those of the run's
/// turns (no outcome when the strategy drops outcomes), and its token
/// estimate that of its content.
pub open spec fn frame_of(f: SummaryFrame, turns: Seq<ChatTurn>, g: TurnGroup, s: CompressionStrategy) -> bool {
    let part = turns.subrange(g.lo as int, g.hi as int);
    &&& f.turn_range == (g.first_turn, g.last_turn)
    &&& f.frame_type == frame_type_of(part)
    &&& f.content.summary@ == summary_text(part, s.max_summary_length as nat)
    &&& views(f.content.key_points@) == key_points_of(part, s.max_key_points as nat)
    &&& opt_view(f.content.outcome) == (if s.preserve_outcomes {
        outcome_of(part)
    } else {
        None
    })
    &&& f.token_estimate == content_tokens(f.content)
}

/// Compacting `turns` up to `current` with strategy `s` runs without panic:
/// grouping stays within `u32`, and every run's summary is clipped at a
/// character boundary.
pub open spec fn compaction_fits(turns: Seq<ChatTurn>, current: u32, s: CompressionStrategy) -> bool {
    let groups = turn_groups(turns, current, s.max_turns_per_frame);
    &&& grouping_fits(turns, current, s.max_turns_per_frame)
    &&& forall|i: int|
        0 <= i < groups.len() ==> summary_fits(
            turns.subrange((#[trigger] groups[i]).lo as int, groups[i].hi as int),
            s.max_summary_length as nat,
        )
}

impl CompactionEngine {
    /// The engine's strategy is a standard one.
    pub open spec fn wf(self) -> bool {
        self.compression_strategy.is_standard()
    }

    /// An engine for `config`: its trigger policy, and the strategy of its
    /// target level.
    pub fn new(config: CompactionConfig) -> (e: CompactionEngine)
        ensures
            e.wf(),
            e.trigger_policy.config == config,
            e.trigger_policy.last_compaction_turn == 0,
            config.target_compression_level == crate::compaction::policy::CompressionTarget::L0
                ==> e.compression_strategy == CompressionStrategy::spec_l0(),
            config.target_compression_level == crate::compaction::policy::CompressionTarget::L1
                ==> e.compression_strategy == CompressionStrategy::spec_l1(),
            config.target_compression_level == crate::compaction::policy::CompressionTarget::L2
                ==> e.compression_strategy == CompressionStrategy::spec_l2(),
    {
        let trigger_policy = CompactionTrigger::from_config(&config);
        let compression_strategy = CompressionStrategy::from_level(config.target_compression_level.to_level());
        CompactionEngine { trigger_policy, compression_strategy }
    }

    /// Whether compacting `history` up to `current` runs without panic.
    pub fn fits_compaction(&self, history: &ChatHistory, current: u32) -> (b: bool)
        requires
            self.wf(),
        ensures
            b == compaction_fits(history.turns@, current, self.compression_strategy),
    {
        let turns = &history.turns;
        let n = turns.len();
        let (groups, fits) = group_turns(turns, current, self.compression_strategy.max_turns_per_frame);
        if !fits {
            return false;
        }
        let mut i: usize = 0;
        while i < groups.len()
            invariant
                i <= groups@.len(),
                groups@ == turn_groups(turns@, current, self.compression_strategy.max_turns_per_frame),
                turns == &history.turns,
                turns@.len() <= usize::MAX,
                forall|k: int|
                    0 <= k < i ==> summary_fits(
                        turns@.subrange((#[trigger] groups@[k]).lo as int, groups@[k].hi as int),
                        self.compression_strategy.max_summary_length as nat,
                    ),
            decreases groups.len() - i,
        {
            let g = groups[i];
            proof {
                lemma_group_in_range(turns@, current, self.compression_strategy.max_turns_per_frame, i as int);
            }
            let (_, ok) = summary_of(turns, g.lo, g.hi, self.compression_strategy.max_summary_length);
            if !ok {
                return false;
            }
            i = i + 1;
        }
        true
    }

    /// The frame for run `g` of `turns`.
    fn create_frame(&self, turns: &Vec<ChatTurn>, g: TurnGroup) -> (f: SummaryFrame)
        requires
            self.wf(),
            g.lo <= g.hi <= turns@.len(),
            summary_fits(
                turns@.subrange(g.lo as int, g.hi as int),
                self.compression_strategy.max_summary_length as nat,
            ),
        ensures
            frame_of(f, turns@, g, self.compression_strategy),
    {
        let s = &self.compression_strategy;
        let ghost part = turns@.subrange(g.lo as int, g.hi as int);
        let frame_type = classify_frame_type(turns, g.lo, g.hi);
        let (summary, _) = summary_of(turns, g.lo, g.hi, s.max_summary_length);
        let key_points = key_points_of_turns(turns, g.lo, g.hi, s.max_key_points);
        let outcome = if s.preserve_outcomes {
            outcome_of_turns(turns, g.lo, g.hi)
        } else {
            None
        };
        let content = FrameContent { summary, key_points, outcome };
        proof {
            lemma_summary_bytes(part, s.max_summary_length as nat);
            assert(byte_len_u32(content.summary@) == crate::clip::utf8_len(content.summary@));
            lemma_key_points_shaped(part, s.max_key_points as nat);
            assert forall|i: int| 0 <= i < content.key_points@.len() implies (
            #[trigger] content.key_points@[i])@.len() <= 100 by {
                assert(views(content.key_points@)[i] == content.key_points@[i]@);
            }
            lemma_points_tokens_bound(content.key_points@);
            lemma_outcome_bytes(part);
            if content.outcome is Some {
                let o = content.outcome->0;
                assert(byte_len_u32(o@) == crate::clip::utf8_len(o@));
            }
        }
        SummaryFrame::new(frame_type, content, (g.first_turn, g.last_turn))
    }

    /// Compact the history up to turn `current` into a transcript: one frame
    /// per run of turns, anchors to the important turns, and the level of
    /// the trigger policy's target. The compression ratio is left at 1.0.
    pub fn compact(&self, history: &ChatHistory, current: u32) -> (plt: PinnedLightweightTranscript)
        requires
            self.wf(),
            compaction_fits(history.turns@, current, self.compression_strategy),
        ensures
            plt.run_id@ == history.run_id@,
            plt.frames@.len() == turn_groups(
                history.turns@,
                current,
                self.compression_strategy.max_turns_per_frame,
            ).len(),
            forall|i: int|
                0 <= i < plt.frames@.len() ==> frame_of(
                    #[trigger] plt.frames@[i],
                    history.turns@,
                    turn_groups(history.turns@, current, self.compression_strategy.max_turns_per_frame)[i],
                    self.compression_strategy,
                ),
            plt.anchors@.len() == anchored_turns(history.turns@, current).len(),
            forall|i: int|
                0 <= i < plt.anchors@.len() ==> anchor_for(
                    #[trigger] plt.anchors@[i],
                    anchored_turns(history.turns@, current)[i],
                ),
            plt.metadata.total_turns == max_last_turn(plt.frames@),
            plt.metadata.compression_level == level_of(self.trigger_policy.config.target_compression_level),
            plt.metadata.compressed_ratio == 0x3ff0_0000_0000_0000u64,
    {
        let turns = &history.turns;
        let n = turns.len();
        let mut plt = PinnedLightweightTranscript::new(history.run_id.clone());
        let (groups, _) = group_turns(turns, current, self.compression_strategy.max_turns_per_frame);
        let ghost expected = turn_groups(turns@, current, self.compression_strategy.max_turns_per_frame);
        let mut i: usize = 0;
        while i < groups.len()
            invariant
                self.wf(),
                i <= groups@.len(),
                groups@ == expected,
                expected == turn_groups(turns@, current, self.compression_strategy.max_turns_per_frame),
                turns == &history.turns,
                turns@.len() <= usize::MAX,
                compaction_fits(turns@, current, self.compression_strategy),
                plt.run_id@ == history.run_id@,
                plt.frames@.len() == i,
                forall|k: int|
                    0 <= k < i ==> frame_of(#[trigger] plt.frames@[k], turns@, expected[k], self.compression_strategy),
                plt.anchors@.len() == 0,
                plt.metadata.total_turns == max_last_turn(plt.frames@),
                plt.metadata.compressed_ratio == 0x3ff0_0000_0000_0000u64,
            decreases groups.len() - i,
        {
            let g = groups[i];
            proof {
                lemma_group_in_range(turns@, current, self.compression_strategy.max_turns_per_frame, i as int);
                assert(summary_fits(
                    turns@.subrange(expected[i as int].lo as int, expected[i as int].hi as int),
                    self.compression_strategy.max_summary_length as nat,
                ));
            }
            let frame = self.create_frame(turns, g);
            let ghost before = plt.frames@;
            plt.add_frame(frame);
            proof {
                assert forall|k: int| 0 <= k < i + 1 implies frame_of(
                    #[trigger] plt.frames@[k],
                    turns@,
                    expected[k],
                    self.compression_strategy,
                ) by {
                    if k < i {
                        assert(plt.frames@[k] == before[k]);
                    }
                }
            }
            i = i + 1;
        }
        let anchors = extract_anchors(turns, current);
        plt.anchors = anchors;
        plt.set_compression_level(self.trigger_policy.target_level().to_level());
        plt
    }
}

/// Every run lies within the turns.
proof fn lemma_group_in_range(turns: Seq<ChatTurn>, current: u32, max: u32, i: int)
    requires
        turns.len() <= usize::MAX,
        0 <= i < turn_groups(turns, current, max).len(),
    ensures
        turn_groups(turns, current, max)[i].lo <= turn_groups(turns, current, max)[i].hi <= turns.len(),
{
    crate::compaction::condense::lemma_groups_in_range(turns, current, max, i);
}

} // verus!
