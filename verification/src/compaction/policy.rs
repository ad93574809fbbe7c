//! When compaction is triggered. Durations and times are milliseconds (times
//! since the Unix epoch).

use vstd::prelude::*;
use crate::compaction::frames::CompressionLevel;
use crate::manifold::now_millis;

verus! {

/// Target compression level of a configuration.
#[derive(Debug, Clone, Copy, PartialEq, Eq, Structural)]
pub enum CompressionTarget {
    L0,
    L1,
    L2,
}

impl CompressionTarget {
    /// The frame compression level of the same name.
    pub fn to_level(self) -> (l: CompressionLevel)
        ensures
            self == CompressionTarget::L0 ==> l == CompressionLevel::L0,
            self == CompressionTarget::L1 ==> l == CompressionLevel::L1,
            self == CompressionTarget::L2 ==> l == CompressionLevel::L2,
    {
        match self {
            CompressionTarget::L0 => CompressionLevel::L0,
            CompressionTarget::L1 => CompressionLevel::L1,
            CompressionTarget::L2 => CompressionLevel::L2,
        }
    }
}

/// Configuration of the compaction triggers.
pub struct CompactionConfig {
    /// Turns between compactions
    pub max_turns: u32,
    /// Milliseconds between compactions
    pub max_duration: i64,
    /// Memory use that triggers compaction, in bytes
    pub max_memory_bytes: usize,
    /// Whether events can trigger compaction
    pub enable_event_triggers: bool,
    /// Target compression level
    pub target_compression_level: CompressionTarget,
}

impl CompactionConfig {
    /// The standard configuration: 100 turns, 30 minutes, 10 MiB, event
    /// triggers on, level L1.
    pub fn standard() -> (c: CompactionConfig)
        ensures
            c.max_turns == 100,
            c.max_duration == 30 * 60 * 1000,
            c.max_memory_bytes == 10 * 1024 * 1024,
            c.enable_event_triggers,
            c.target_compression_level == CompressionTarget::L1,
    {
        CompactionConfig {
            max_turns: 100,
            max_duration: 30 * 60 * 1000,
            max_memory_bytes: 10 * 1024 * 1024,
            enable_event_triggers: true,
            target_compression_level: CompressionTarget::L1,
        }
    }

    /// For memory-constrained environments: 50 turns, 15 minutes, 5 MiB,
    /// event triggers on, level L2.
    pub fn memory_constrained() -> (c: CompactionConfig)
        ensures
            c.max_turns == 50,
            c.max_duration == 15 * 60 * 1000,
            c.max_memory_bytes == 5 * 1024 * 1024,
            c.enable_event_triggers,
            c.target_compression_level == CompressionTarget::L2,
    {
        CompactionConfig {
            max_turns: 50,
            max_duration: 15 * 60 * 1000,
            max_memory_bytes: 5 * 1024 * 1024,
            enable_event_triggers: true,
            target_compression_level: CompressionTarget::L2,
        }
    }

    /// For maximum quality: 200 turns, one hour, 50 MiB, event triggers off,
    /// level L0.
    pub fn high_quality() -> (c: CompactionConfig)
        ensures
            c.max_turns == 200,
            c.max_duration == 60 * 60 * 1000,
            c.max_memory_bytes == 50 * 1024 * 1024,
            !c.enable_event_triggers,
            c.target_compression_level == CompressionTarget::L0,
    {
        CompactionConfig {
            max_turns: 200,
            max_duration: 60 * 60 * 1000,
            max_memory_bytes: 50 * 1024 * 1024,
            enable_event_triggers: false,
            target_compression_level: CompressionTarget::L0,
        }
    }

    /// A copy of the configuration.
    pub fn copy(&self) -> (c: CompactionConfig)
        ensures
            c == *self,
    {
        CompactionConfig {
            max_turns: self.max_turns,
            max_duration: self.max_duration,
            max_memory_bytes: self.max_memory_bytes,
            enable_event_triggers: self.enable_event_triggers,
            target_compression_level: self.target_compression_level,
        }
    }
}

impl Default for CompactionConfig {
    fn default() -> (c: CompactionConfig)
        ensures
            c.max_turns == 100,
            c.max_duration == 30 * 60 * 1000,
            c.max_memory_bytes == 10 * 1024 * 1024,
            c.enable_event_triggers,
            c.target_compression_level == CompressionTarget::L1,
    {
        CompactionConfig::standard()
    }
}

/// Events that can trigger compaction.
#[derive(Debug, Clone, Copy, PartialEq, Eq, Structural)]
pub enum CompactionEvent {
    Error,
    Decision,
    Milestone,
    TaskComplete,
    ContextSwitch,
}

/// Why compaction was triggered.
#[derive(Debug)]
pub enum TriggerReason {
    TurnCount { current: u32, threshold: u32 },
    TimeElapsed { elapsed: i64, threshold: i64 },
    MemoryUsage { current_bytes: usize, threshold_bytes: usize },
    Event { event_type: CompactionEvent },
    Manual,
}

/// Decides whether compaction is due.
pub struct CompactionTrigger {
    pub config: CompactionConfig,
    pub last_compaction_turn: u32,
    pub last_compaction_time: i64,
}

impl CompactionTrigger {
    /// A trigger for `config`, last compacted at turn 0, now.
    pub fn from_config(config: &CompactionConfig) -> (t: CompactionTrigger)
        ensures
            t.config == *config,
            t.last_compaction_turn == 0,
    {
        CompactionTrigger { config: config.copy(), last_compaction_turn: 0, last_compaction_time: now_millis() }
    }

    /// At least `max_turns` turns since the last compaction.
    pub fn should_trigger_turn_count(&self, current_turn: u32) -> (b: bool)
        requires
            current_turn >= self.last_compaction_turn,
        ensures
            b == (current_turn - self.last_compaction_turn >= self.config.max_turns),
    {
        current_turn - self.last_compaction_turn >= self.config.max_turns
    }

    /// More than `max_duration` since the last compaction.
    pub fn should_trigger_time(&self, current_time: i64) -> (b: bool)
        requires
            i64::MIN <= current_time - self.last_compaction_time <= i64::MAX,
        ensures
            b == (current_time - self.last_compaction_time > self.config.max_duration),
    {
        current_time - self.last_compaction_time > self.config.max_duration
    }

    /// Memory use at or above the limit.
    pub fn should_trigger_memory(&self, current_memory_bytes: usize) -> (b: bool)
        ensures
            b == (current_memory_bytes >= self.config.max_memory_bytes),
    {
        current_memory_bytes >= self.config.max_memory_bytes
    }

    /// With event triggers on, a completed task or a context switch triggers.
    pub fn should_trigger_event(&self, event: CompactionEvent) -> (b: bool)
        ensures
            b == (self.config.enable_event_triggers && (event == CompactionEvent::TaskComplete
                || event == CompactionEvent::ContextSwitch)),
    {
        if !self.config.enable_event_triggers {
            return false;
        }
        match event {
            CompactionEvent::TaskComplete | CompactionEvent::ContextSwitch => true,
            _ => false,
        }
    }

    /// The first condition met, in the order turn count, time, memory.
    pub fn should_trigger(&self, current_turn: u32, current_time: i64, memory_bytes: usize) -> (r: Option<
        TriggerReason,
    >)
        requires
            current_turn >= self.last_compaction_turn,
            i64::MIN <= current_time - self.last_compaction_time <= i64::MAX,
        ensures
            ({
                let turns = current_turn - self.last_compaction_turn >= self.config.max_turns;
                let time = current_time - self.last_compaction_time > self.config.max_duration;
                let memory = memory_bytes >= self.config.max_memory_bytes;
                &&& turns ==> r == Some(
                    TriggerReason::TurnCount { current: current_turn, threshold: self.config.max_turns },
                )
                &&& !turns && time ==> r == Some(
                    TriggerReason::TimeElapsed {
                        elapsed: (current_time - self.last_compaction_time) as i64,
                        threshold: self.config.max_duration,
                    },
                )
                &&& !turns && !time && memory ==> r == Some(
                    TriggerReason::MemoryUsage {
                        current_bytes: memory_bytes,
                        threshold_bytes: self.config.max_memory_bytes,
                    },
                )
                &&& !turns && !time && !memory ==> r is None
            }),
    {
        if self.should_trigger_turn_count(current_turn) {
            return Some(TriggerReason::TurnCount { current: current_turn, threshold: self.config.max_turns });
        }
        if self.should_trigger_time(current_time) {
            return Some(
                TriggerReason::TimeElapsed {
                    elapsed: current_time - self.last_compaction_time,
                    threshold: self.config.max_duration,
                },
            );
        }
        if self.should_trigger_memory(memory_bytes) {
            return Some(
                TriggerReason::MemoryUsage {
                    current_bytes: memory_bytes,
                    threshold_bytes: self.config.max_memory_bytes,
                },
            );
        }
        None
    }

    /// Record a compaction at `turn` and `time`.
    pub fn reset(&mut self, turn: u32, time: i64)
        ensures
            final(self).last_compaction_turn == turn,
            final(self).last_compaction_time == time,
            final(self).config == old(self).config,
    {
        self.last_compaction_turn = turn;
        self.last_compaction_time = time;
    }

    /// The target compression level.
    pub fn target_level(&self) -> (t: CompressionTarget)
        ensures
            t == self.config.target_compression_level,
    {
        self.config.target_compression_level
    }
}

} // verus!
