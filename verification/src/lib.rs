//! Query-serving worker for a distributed vector store.
//!
//! Given a segment identifier and a batch of query embeddings, the worker
//! returns the top-k nearest neighbours per query, reconciling candidates
//! from a compacted approximate index with candidates derived from the
//! not-yet-compacted mutation log. Embedding components and distances are
//! held as plain integers (squared Euclidean distance over fixed-point
//! components), so every step of scoring, merging, filtering and projection
//! is verified exactly.

pub mod errors;
pub mod types;
pub mod ranking;
pub mod distance;
pub mod operators;
pub mod validate;
pub mod orchestrator;
pub mod dispatcher;
pub mod server;
pub mod storage;
