//! Frames of the pinned lightweight transcript.

use vstd::prelude::*;
use vstd::utf8::encode_utf8;
use crate::manifold::{new_uuid, now_millis};

verus! {

/// Frame type.
#[derive(Debug, Clone, Copy, PartialEq, Eq, Structural)]
pub enum FrameType {
    Summary,
    Milestone,
    Error,
    Decision,
}

/// Compressed frame content.
pub struct FrameContent {
    /// Brief summary (one or two sentences)
    pub summary: String,
    /// Key points
    pub key_points: Vec<String>,
    /// Final outcome, if any
    pub outcome: Option<String>,
}

/// Number of occurrences of `c` in `s`.
pub open spec fn count_char(s: Seq<char>, c: char) -> nat
    decreases s.len(),
{
    if s.len() == 0 {
        0
    } else {
        count_char(s.drop_last(), c) + if s.last() == c {
            1nat
        } else {
            0nat
        }
    }
}

/// Number of sentence ends (`.` or `!`) in `s`.
fn sentence_ends(s: &String) -> (n: usize)
    ensures
        n == count_char(s@, '.') + count_char(s@, '!'),
{
    let chars = crate::strings::chars_of(s.as_str());
    let mut n: usize = 0;
    let mut i: usize = 0;
    while i < chars.len()
        invariant
            i <= chars@.len(),
            chars@ == s@,
            n == count_char(chars@.take(i as int), '.') + count_char(chars@.take(i as int), '!'),
            n <= i,
        decreases chars.len() - i,
    {
        proof {
            assert(chars@.take(i as int + 1).drop_last() =~= chars@.take(i as int));
        }
        if chars[i] == '.' || chars[i] == '!' {
            n = n + 1;
        }
        i = i + 1;
    }
    proof {
        assert(chars@.take(chars@.len() as int) == chars@);
    }
    n
}

impl FrameContent {
    /// Content with a summary and key points and no outcome.
    pub fn new(summary: String, key_points: Vec<String>) -> (r: FrameContent)
        ensures
            r.summary == summary,
            r.key_points == key_points,
            r.outcome is None,
    {
        FrameContent { summary, key_points, outcome: None }
    }

    /// The same content with an outcome.
    pub fn with_outcome(self, outcome: String) -> (r: FrameContent)
        ensures
            r.summary == self.summary,
            r.key_points == self.key_points,
            r.outcome == Some(outcome),
    {
        let mut s = self;
        s.outcome = Some(outcome);
        s
    }

    /// The content is within its limits: the summary holds at most two
    /// sentence ends (`.` or `!`), and there are one to five key points.
    pub fn is_valid(&self) -> (b: bool)
        ensures
            b == (count_char(self.summary@, '.') + count_char(self.summary@, '!') <= 2
                && 1 <= self.key_points@.len() <= 5),
    {
        let sentences = sentence_ends(&self.summary);
        if sentences > 2 {
            return false;
        }
        if self.key_points.len() > 5 || self.key_points.len() == 0 {
            return false;
        }
        true
    }
}

/// Length in bytes of a string, as a `u32` (truncated as `as u32` does).
pub open spec fn byte_len_u32(s: Seq<char>) -> u32 {
    (encode_utf8(s).len() as usize) as u32
}

/// Token estimate of a list of texts: a quarter of each length, summed.
pub open spec fn points_tokens(v: Seq<String>) -> int
    decreases v.len(),
{
    if v.len() == 0 {
        0
    } else {
        points_tokens(v.drop_last()) + byte_len_u32(v.last()@) / 4
    }
}

/// Token estimate of frame content: about four bytes per token, over the
/// summary, each key point and the outcome.
pub open spec fn content_tokens(c: FrameContent) -> int {
    byte_len_u32(c.summary@) / 4 + points_tokens(c.key_points@) + match c.outcome {
        Some(o) => byte_len_u32(o@) / 4,
        None => 0,
    }
}

/// A compressed segment of chat history. Ids are UUIDs held as their
/// 128-bit value; the timestamp is milliseconds since the Unix epoch.
pub struct SummaryFrame {
    pub frame_id: u128,
    pub frame_type: FrameType,
    pub timestamp: i64,
    pub content: FrameContent,
    /// Turns covered, first and last inclusive
    pub turn_range: (u32, u32),
    /// Estimated token count
    pub token_estimate: u32,
}

impl SummaryFrame {
    /// A frame of this type, content and range, with its token estimate.
    pub fn new(frame_type: FrameType, content: FrameContent, turn_range: (u32, u32)) -> (f: SummaryFrame)
        requires
            content_tokens(content) <= u32::MAX,
        ensures
            f.frame_type == frame_type,
            f.content == content,
            f.turn_range == turn_range,
            f.token_estimate == content_tokens(content),
    {
        let token_estimate = SummaryFrame::estimate_tokens(&content);
        SummaryFrame {
            frame_id: new_uuid(),
            frame_type,
            timestamp: now_millis(),
            content,
            turn_range,
            token_estimate,
        }
    }

    /// Token estimate of frame content.
    fn estimate_tokens(content: &FrameContent) -> (n: u32)
        requires
            content_tokens(*content) <= u32::MAX,
        ensures
            n == content_tokens(*content),
    {
        let summary_tokens = (#[verifier::truncate] (content.summary.as_str().len() as u32)) / 4;
        let mut points: u32 = 0;
        let mut i: usize = 0;
        proof {
            lemma_points_tokens_prefix(content.key_points@, 0);
        }
        while i < content.key_points.len()
            invariant
                i <= content.key_points@.len(),
                points == points_tokens(content.key_points@.take(i as int)),
                summary_tokens + points_tokens(content.key_points@) <= u32::MAX,
                forall|k: int| 0 <= k <= content.key_points@.len() ==>
                    points_tokens(#[trigger] content.key_points@.take(k)) <= points_tokens(content.key_points@),
            decreases content.key_points.len() - i,
        {
            proof {
                assert(content.key_points@.take(i as int + 1).drop_last() =~= content.key_points@.take(i as int));
            }
            points = points + (#[verifier::truncate] (content.key_points[i].as_str().len() as u32)) / 4;
            i = i + 1;
        }
        proof {
            assert(content.key_points@.take(content.key_points@.len() as int) == content.key_points@);
        }
        let outcome_tokens = match &content.outcome {
            Some(o) => (#[verifier::truncate] (o.as_str().len() as u32)) / 4,
            None => 0,
        };
        summary_tokens + points + outcome_tokens
    }

    /// Whether the frame covers `turn`.
    pub fn contains_turn(&self, turn: u32) -> (b: bool)
        ensures
            b == (self.turn_range.0 <= turn <= self.turn_range.1),
    {
        turn >= self.turn_range.0 && turn <= self.turn_range.1
    }
}

/// Token estimates of prefixes never exceed that of the whole list.
proof fn lemma_points_tokens_prefix(v: Seq<String>, k: int)
    ensures
        forall|j: int| 0 <= j <= v.len() ==> points_tokens(#[trigger] v.take(j)) <= points_tokens(v),
    decreases v.len(),
{
    if v.len() > 0 {
        lemma_points_tokens_prefix(v.drop_last(), k);
        assert forall|j: int| 0 <= j <= v.len() implies points_tokens(#[trigger] v.take(j)) <= points_tokens(v) by {
            if j < v.len() {
                assert(v.take(j) =~= v.drop_last().take(j));
            } else {
                assert(v.take(j) =~= v);
            }
        }
    } else {
        assert forall|j: int| 0 <= j <= v.len() implies points_tokens(#[trigger] v.take(j)) <= points_tokens(v) by {
            assert(v.take(j) =~= v);
        }
    }
}

/// The floating-point number with bits `b` clamped to `[0.0, 1.0]`
/// (`f64::clamp`): NaN and numbers within the range stay, negative numbers
/// become `0.0`, numbers above one become `1.0`.
pub open spec fn clamp_unit_bits(b: u64) -> u64 {
    let magnitude = b % 0x8000_0000_0000_0000;
    if magnitude > 0x7ff0_0000_0000_0000 {
        b
    } else if b >= 0x8000_0000_0000_0000 {
        if magnitude == 0 {
            b
        } else {
            0
        }
    } else if b > 0x3ff0_0000_0000_0000 {
        0x3ff0_0000_0000_0000
    } else {
        b
    }
}

/// Reference to an important turn of the original history.
/// `relevance_score` holds the bits of a fraction.
pub struct AnchorRef {
    pub anchor_id: u128,
    pub turn_number: u32,
    pub relevance_score: u64,
    pub jump_uri: String,
    pub label: Option<String>,
}

impl AnchorRef {
    /// An anchor to `turn_number`, its relevance clamped to `[0.0, 1.0]`.
    pub fn new(turn_number: u32, relevance_score: u64, jump_uri: String) -> (a: AnchorRef)
        ensures
            a.turn_number == turn_number,
            a.relevance_score == clamp_unit_bits(relevance_score),
            a.jump_uri == jump_uri,
            a.label is None,
    {
        let magnitude = relevance_score % 0x8000_0000_0000_0000u64;
        let clamped = if magnitude > 0x7ff0_0000_0000_0000u64 {
            relevance_score
        } else if relevance_score >= 0x8000_0000_0000_0000u64 {
            if magnitude == 0 {
                relevance_score
            } else {
                0
            }
        } else if relevance_score > 0x3ff0_0000_0000_0000u64 {
            0x3ff0_0000_0000_0000u64
        } else {
            relevance_score
        };
        AnchorRef { anchor_id: new_uuid(), turn_number, relevance_score: clamped, jump_uri, label: None }
    }

    /// The same anchor with a label.
    pub fn with_label(self, label: String) -> (a: AnchorRef)
        ensures
            a.anchor_id == self.anchor_id,
            a.turn_number == self.turn_number,
            a.relevance_score == self.relevance_score,
            a.jump_uri == self.jump_uri,
            a.label == Some(label),
    {
        let mut s = self;
        s.label = Some(label);
        s
    }
}

/// How aggressively the transcript is compressed.
#[derive(Debug, Clone, Copy, PartialEq, Eq, Structural)]
pub enum CompressionLevel {
    L0,
    L1,
    L2,
}

/// The reduction factor of a level: 1, 10 and 40.
pub open spec fn level_ratio(l: CompressionLevel) -> nat {
    match l {
        CompressionLevel::L0 => 1,
        CompressionLevel::L1 => 10,
        CompressionLevel::L2 => 40,
    }
}

impl CompressionLevel {
    /// Whether compressing `original_tokens` at this level fits in
    /// `max_tokens`: the original count divided by the level's reduction
    /// factor, rounded down, is at most the maximum.
    pub fn meets_memory_budget(&self, original_tokens: u32, max_tokens: u32) -> (b: bool)
        ensures
            b == (original_tokens as nat / level_ratio(*self) <= max_tokens),
    {
        let ratio: u32 = match self {
            CompressionLevel::L0 => 1,
            CompressionLevel::L1 => 10,
            CompressionLevel::L2 => 40,
        };
        original_tokens / ratio <= max_tokens
    }
}

/// Transcript metadata. `compressed_ratio` holds the bits of the ratio of
/// original to compressed tokens; `last_updated` is milliseconds since the
/// Unix epoch.
pub struct TranscriptMetadata {
    pub total_turns: u32,
    pub compressed_ratio: u64,
    pub last_updated: i64,
    pub compression_level: CompressionLevel,
}

impl TranscriptMetadata {
    /// No turns, ratio 1.0, level L0.
    pub fn new() -> (m: TranscriptMetadata)
        ensures
            m.total_turns == 0,
            m.compressed_ratio == 0x3ff0_0000_0000_0000u64,
            m.compression_level == CompressionLevel::L0,
    {
        TranscriptMetadata {
            total_turns: 0,
            compressed_ratio: 0x3ff0_0000_0000_0000u64,
            last_updated: now_millis(),
            compression_level: CompressionLevel::L0,
        }
    }
}

/// The largest last turn over the frames (0 for none).
pub open spec fn max_last_turn(frames: Seq<SummaryFrame>) -> u32
    decreases frames.len(),
{
    if frames.len() == 0 {
        0
    } else {
        let m = max_last_turn(frames.drop_last());
        if frames.last().turn_range.1 > m {
            frames.last().turn_range.1
        } else {
            m
        }
    }
}

/// The sum of the frames' token estimates.
pub open spec fn frames_tokens(frames: Seq<SummaryFrame>) -> int
    decreases frames.len(),
{
    if frames.len() == 0 {
        0
    } else {
        frames_tokens(frames.drop_last()) + frames.last().token_estimate
    }
}

/// The pinned lightweight transcript: summary frames and anchors of a run.
pub struct PinnedLightweightTranscript {
    pub transcript_id: u128,
    pub run_id: String,
    pub frames: Vec<SummaryFrame>,
    pub anchors: Vec<AnchorRef>,
    pub metadata: TranscriptMetadata,
}

impl PinnedLightweightTranscript {
    /// An empty transcript for the run.
    pub fn new(run_id: String) -> (t: PinnedLightweightTranscript)
        ensures
            t.run_id == run_id,
            t.frames@.len() == 0,
            t.anchors@.len() == 0,
            t.metadata.total_turns == 0,
            t.metadata.compressed_ratio == 0x3ff0_0000_0000_0000u64,
            t.metadata.compression_level == CompressionLevel::L0,
    {
        PinnedLightweightTranscript {
            transcript_id: new_uuid(),
            run_id,
            frames: Vec::new(),
            anchors: Vec::new(),
            metadata: TranscriptMetadata::new(),
        }
    }

    /// Append a frame; the total turn count becomes the largest last turn of
    /// all frames.
    pub fn add_frame(&mut self, frame: SummaryFrame)
        ensures
            final(self).frames@ == old(self).frames@.push(frame),
            final(self).metadata.total_turns == max_last_turn(final(self).frames@),
            final(self).anchors == old(self).anchors,
            final(self).run_id == old(self).run_id,
            final(self).metadata.compressed_ratio == old(self).metadata.compressed_ratio,
            final(self).metadata.compression_level == old(self).metadata.compression_level,
    {
        self.frames.push(frame);
        let mut m: u32 = 0;
        let mut i: usize = 0;
        while i < self.frames.len()
            invariant
                i <= self.frames@.len(),
                m == max_last_turn(self.frames@.take(i as int)),
            decreases self.frames.len() - i,
        {
            proof {
                assert(self.frames@.take(i as int + 1).drop_last() =~= self.frames@.take(i as int));
            }
            if self.frames[i].turn_range.1 > m {
                m = self.frames[i].turn_range.1;
            }
            i = i + 1;
        }
        proof {
            assert(self.frames@.take(self.frames@.len() as int) == self.frames@);
        }
        self.metadata.total_turns = m;
        self.metadata.last_updated = now_millis();
    }

    /// Append an anchor.
    pub fn add_anchor(&mut self, anchor: AnchorRef)
        ensures
            final(self).anchors@ == old(self).anchors@.push(anchor),
            final(self).frames == old(self).frames,
            final(self).metadata == old(self).metadata,
            final(self).run_id == old(self).run_id,
    {
        self.anchors.push(anchor);
    }

    /// The sum of the frames' token estimates.
    pub fn total_tokens(&self) -> (n: u32)
        requires
            frames_tokens(self.frames@) <= u32::MAX,
        ensures
            n == frames_tokens(self.frames@),
    {
        proof {
            lemma_frames_tokens_prefix(self.frames@);
        }
        let mut n: u32 = 0;
        let mut i: usize = 0;
        while i < self.frames.len()
            invariant
                i <= self.frames@.len(),
                n == frames_tokens(self.frames@.take(i as int)),
                frames_tokens(self.frames@) <= u32::MAX,
                forall|k: int| 0 <= k <= self.frames@.len() ==>
                    frames_tokens(#[trigger] self.frames@.take(k)) <= frames_tokens(self.frames@),
            decreases self.frames.len() - i,
        {
            proof {
                assert(self.frames@.take(i as int + 1).drop_last() =~= self.frames@.take(i as int));
            }
            n = n + self.frames[i].token_estimate;
            i = i + 1;
        }
        proof {
            assert(self.frames@.take(self.frames@.len() as int) == self.frames@);
        }
        n
    }

    /// Set the compression level.
    pub fn set_compression_level(&mut self, level: CompressionLevel)
        ensures
            final(self).metadata.compression_level == level,
            final(self).metadata.total_turns == old(self).metadata.total_turns,
            final(self).metadata.compressed_ratio == old(self).metadata.compressed_ratio,
            final(self).frames == old(self).frames,
            final(self).anchors == old(self).anchors,
            final(self).run_id == old(self).run_id,
    {
        self.metadata.compression_level = level;
    }
}

/// Token sums of prefixes never exceed that of the whole list.
proof fn lemma_frames_tokens_prefix(v: Seq<SummaryFrame>)
    ensures
        forall|j: int| 0 <= j <= v.len() ==> frames_tokens(#[trigger] v.take(j)) <= frames_tokens(v),
    decreases v.len(),
{
    if v.len() > 0 {
        lemma_frames_tokens_prefix(v.drop_last());
        assert forall|j: int| 0 <= j <= v.len() implies frames_tokens(#[trigger] v.take(j)) <= frames_tokens(v) by {
            if j < v.len() {
                assert(v.take(j) =~= v.drop_last().take(j));
            } else {
                assert(v.take(j) =~= v);
            }
        }
    } else {
        assert forall|j: int| 0 <= j <= v.len() implies frames_tokens(#[trigger] v.take(j)) <= frames_tokens(v) by {
            assert(v.take(j) =~= v);
        }
    }
}

/// A stronger compression level meets every budget a weaker one meets.
pub proof fn law_stronger_level_meets_budget(original: u32, max: u32)
    ensures
        original as nat / level_ratio(CompressionLevel::L0) <= max ==> original as nat / level_ratio(
            CompressionLevel::L1,
        ) <= max,
        original as nat / level_ratio(CompressionLevel::L1) <= max ==> original as nat / level_ratio(
            CompressionLevel::L2,
        ) <= max,
{
    assert(original as nat / 10 <= original as nat / 1) by (nonlinear_arith);
    assert(original as nat / 40 <= original as nat / 10) by (nonlinear_arith);
}

} // verus!

