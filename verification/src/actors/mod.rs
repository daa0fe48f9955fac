//! Memory actors: the S0/L2/L1/L0/GKL memory tiers, traversal, planning and the
//! decision logic around them.

pub mod l2;
pub mod chain;
pub mod bfs;
pub mod grouping;
pub mod forward;
pub mod symptoms;
pub mod config;
pub mod llm_client;
pub mod embedding;
pub mod orchestrator;
pub mod causal_engine;
pub mod plan_actor;
pub mod s0;
pub mod inference;
pub mod workspace_manager;
pub mod trust;
pub mod gkl;
pub mod summary;
pub mod l1;
pub mod l0;
pub mod search;
pub mod consolidate;
pub mod coordinator;
pub mod prompts;
pub mod answers;

use vstd::prelude::*;

verus! {

/// Common interface of the storage actors.
pub trait Actor {
    /// Human-readable actor name (for logging).
    fn name(&self) -> &'static str;

    /// Number of items currently stored.
    fn size(&self) -> usize;
}

} // verus!
