//! Core logic of a continuous load generator for object-storage targets.
//!
//! The library holds the verified pieces: the distribution expander that
//! turns a compact weighted-list spec into a sampling pool, the bounded
//! object-tracking queue with selectable retrieval policies, the worker
//! decision logic (operation sampling and the cooperative stop protocol),
//! and the statistics aggregation pipeline with its data-cap admission
//! decision. Network transport, threads and channels live outside, around
//! this crate; they hand plain values in and take plain values back.

pub mod error;
pub mod rng;
pub mod queue;
pub mod distr;
pub mod render;
pub mod worker;
pub mod stats;
pub mod writer;
