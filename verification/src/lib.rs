//! An approximate BM25 ranking aggregator.
//!
//! The aggregator ingests per-term posting rows (document ids, in-document
//! term frequencies and document lengths), accumulates per-document BM25
//! contributions into a score map, optionally substitutes a Bloom filter
//! together with a single representative contribution for very common terms,
//! and finally produces the top-K documents sorted by score.
//!
//! Scores are fixed-point numbers: an `i64` carrying [`fixed::SCALE`]
//! fractional units per whole unit, so that every arithmetic step of the
//! scoring kernel and of the accumulators has an exact contract.

pub mod agg;
pub mod bloom;
pub mod encoder;
pub mod errors;
pub mod finalize;
pub mod fixed;
pub mod heap;
pub mod jobs;
pub mod laws;
pub mod rows;
pub mod score;
pub mod state;

pub use fixed::SCALE;
