# graphmind

A shared, persistent memory for AI agents: a knowledge graph with causal links, memory
tiers (S0 → L2 → L1 → L0, and a global tier), workspaces, keyword search, a trust
firewall and a planning axis. The library in `src/` is written in Verus: every function
carries a `requires`/`ensures` contract and is proved against it.

## Layout

- `src/graph/` — nodes, edges and the in-memory graph with its traversals.
- `src/actors/` — the memory tiers and their generation (`l2`, `l1`, `l0`, `gkl`, `s0`),
  causal chains (`chain`, `forward`, `symptoms`), the causal engine and inference, plans
  and their decomposition, workspaces, search, the trust firewall's decisions, the
  consolidation coordinator, configuration, the LLM questions (`prompts`) and the
  readers of its answers (`answers`).
- `src/service.rs` — the tool requests of the service front end in plain values: wire
  names, defaults, checks and the actor calls of each request.
- `src/keys.rs` — the key space of the persistent store.
- `src/json.rs` — JSON values as read with serde_json.
- `src/laws.rs` — properties that span operations (reads after writes, bounds, ordering,
  coverage of generated clusters, what an LLM answer can name).
- `app/` — the process: environment, HTTP calls to the LLM and embedding endpoints, the
  coordinator's event loop, and the float scores (vector similarity, trust, confidence).
- `tests/` — tests run against the compiled library.

Trusted boundaries are few and marked `#[verifier::external_body]`: the clock, random
ids, Unicode case and character classes, and serde_json's parser; each states only what
the outside code guarantees.
