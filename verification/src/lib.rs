//! A verified translation serving core: model configuration and
//! fingerprinting, a capacity-bounded model cache with least-recently-used
//! eviction that never evicts a model still held by a caller, a batching
//! layer that groups requests under sentence- and word-count limits, and a
//! pivot (two-hop) coordinator that chains two translation stages while
//! preserving the per-index correspondence between inputs and outputs.
//!
//! The neural inference backend itself is an outside service: the core never
//! calls it. A translation runs as a job: the core forms the batches, the
//! embedder carries each batch to the backend and hands the outputs back,
//! and the core demultiplexes them into the caller's order.

pub mod batch;
pub mod cache;
pub mod config;
pub mod service;
