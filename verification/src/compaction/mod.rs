//! Compaction of chat history into a pinned lightweight transcript: frames
//! that summarise runs of turns, anchors to important turns, and the policy
//! that decides when to compact.

pub mod condense;
pub mod digest;
pub mod engine;
pub mod frames;
pub mod policy;
