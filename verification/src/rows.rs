//! The input row model.
//!
//! The surrounding execution environment hands the aggregator one row per
//! term.  A row is a record of named columns; anything else is rejected.
//! The posting columns are integer arrays whose element width is part of
//! the value: only 32-bit arrays are supported, the reserved widths are
//! rejected.  A row may instead carry a pre-built Bloom filter over its
//! document ids, which the dispatcher may prefer to reading the arrays.

use vstd::prelude::*;
use crate::errors::Bm25Error;

verus! {

/// An integer array column, tagged with its element width.
pub enum IntColumn {
    I16(Vec<i16>),
    I32(Vec<i32>),
    I64(Vec<i64>),
}

/// One per-term posting row.
pub struct TermRow {
    /// The term itself; consumed but not used in scoring.
    pub term: String,
    /// Number of documents containing the term; required.
    pub term_freq: Option<i32>,
    /// Ids of the documents containing the term.
    pub doc_ids: Option<IntColumn>,
    /// Per-document frequencies of the term.
    pub fqs: Option<IntColumn>,
    /// Per-document lengths.
    pub doc_lens: Option<IntColumn>,
    /// Optional Bloom filter over `doc_ids`.
    pub doc_ids_bloom: Option<fastbloom::BloomFilter<std::collections::hash_map::RandomState>>,
}

/// What the execution environment hands the aggregate: a record row, or
/// some other value it refuses.
pub enum AggRow {
    Record(TermRow),
    NonRecord,
}

/// Reading a posting column: absent is a schema error, a reserved element
/// width is rejected after the cast warning.
pub open spec fn spec_column(c: Option<IntColumn>) -> Result<Seq<i32>, Bm25Error> {
    match c {
        None => Err(Bm25Error::MissingColumn),
        Some(IntColumn::I32(v)) => Ok(v@),
        Some(_) => Err(Bm25Error::UnsupportedColumnType),
    }
}

} // verus!
