# sentinel-core

The core of a goal-alignment engine for coding agents, written in Verus: the
goal manifold and its dependency graph, formal success predicates, intent
anchors and drift decisions, the execution guardrail, working and semantic
memory, compaction of chat history, consensus among validator agents, signed
certificates and gossip between nodes.

- `src/` is the verified library. Public functions state in `ensures`, over spec functions and views,
  what they return or change (for sandbox evaluation, in terms of what the
  sandbox reports); the laws that relate
  several functions are public proof functions named `law_*`. Floating-point
  values are held as the bits of the number, times as milliseconds since the
  Unix epoch and UUIDs as `u128`. Calls into outside crates (BLAKE3, Ed25519,
  hex, petgraph, uuid, chrono, serde_json) and a few std functions go through
  small trusted wrappers whose contracts say what the crates document.
- `app/` is the runtime around it: answering the file-system, process and
  HTTP checks that predicate evaluation asks for, the scores and rankings
  computed in floating point, episodic memory merged by similarity, drift
  detection, and the JSON wire format of gossip.
- `tests/` exercises the library through its public interface.
