//! GraphMind memory engine: graph model, memory tiers and planning logic.

pub mod clock;
pub mod text;
pub mod keyed;
pub mod graph;
pub mod components;
pub mod order;
pub mod actors;
pub mod laws;
pub mod decision_laws;
pub mod json;
pub mod service;
pub mod keys;
