//! Verified core of a goal-alignment engine for coding agents.


pub mod action;
pub mod alignment;
pub mod clip;
pub mod atomic;
pub mod cognitive;
pub mod compaction;
pub mod consensus;
pub mod dag;
pub mod endpoint;
pub mod error;
pub mod evidence;
pub mod execution;
pub mod federation;
pub mod framing;
pub mod gate;
pub mod goal;
pub mod gossip;
pub mod governance;
pub mod graph;
pub mod guardrail;
pub mod intent;
pub mod learning;
pub mod manifold;
pub mod memory;
pub mod orchestrator;
pub mod predicate;
pub mod predicate_eval;
pub mod predicate_world;
pub mod sandbox;
pub mod string_map;
pub mod semantic;
pub mod strings;
pub mod text;
pub mod words;
pub mod working;
