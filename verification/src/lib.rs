//! Roadmap generation and traversal engine.
//!
//! The crate builds personalized learning roadmaps: it expands a skill
//! request into search queries, merges retrieval hits into a bounded
//! candidate set, turns a generated node listing into a linked graph with
//! stable identifiers, linearizes that graph into a deterministic display
//! order, and tracks per-node completion.

pub mod error;
pub mod model;
pub mod text;
pub mod completion;
pub mod retrieve;
pub mod linearize;
pub mod resolve;
pub mod synth;
pub mod expand;
pub mod session;
