//! The error surface of the aggregator.
//!
//! Every error is fatal to its aggregation: the caller is expected to
//! abandon the state when one is returned.

use vstd::prelude::*;

verus! {

/// A fatal aggregation error.
#[derive(Clone, Copy, Debug, PartialEq, Eq, Structural)]
pub enum Bm25Error {
    /// The row handed to the aggregate is not a record.
    NotRecord,
    /// `corpus_size` or `avg_doc_len` was not configured before the first row.
    ConfigMissing,
    /// The required `term_freq` column is absent or null.
    MissingTermFreq,
    /// One of the `doc_ids`, `fqs` or `doc_lens` columns is absent or null.
    MissingColumn,
    /// A posting column has an element width other than 32 bits.
    UnsupportedColumnType,
    /// The aggregate was called with a negative limit.
    NegativeLimit,
    /// The aggregate was called with a non-positive corpus size.
    NegativeCorpusSize,
    /// The aggregate was called with a negative average document length.
    NegativeAvgDocLen,
    /// A score could not be evaluated: the logarithm argument was not
    /// positive, or a denominator was zero.
    Numeric,
    /// A score fell outside the fixed-point range.
    Overflow,
}

impl Bm25Error {
    /// The user-visible description of the error.
    pub fn message(&self) -> String {
        match *self {
            Bm25Error::NotRecord => "bm25_agg aggregate called with non-record type".to_string(),
            Bm25Error::ConfigMissing => "bm25_agg aggregate called before corpus_size and avg_doc_len were set".to_string(),
            Bm25Error::MissingTermFreq => "column term_freq must be present and non-null".to_string(),
            Bm25Error::MissingColumn => "columns doc_ids, fqs and doc_lens must be present and non-null".to_string(),
            Bm25Error::UnsupportedColumnType => "bm25 row type causes a type cast, potentially hurting performance; only 32-bit integer arrays are supported".to_string(),
            Bm25Error::NegativeLimit => "bm25_agg aggregate called with negative limit".to_string(),
            Bm25Error::NegativeCorpusSize => "bm25_agg aggregate called with negative corpus_size".to_string(),
            Bm25Error::NegativeAvgDocLen => "bm25_agg aggregate called with negative avg_doc_len".to_string(),
            Bm25Error::Numeric => "encountered an undefined value in BM25 score calculation".to_string(),
            Bm25Error::Overflow => "BM25 score fell outside the fixed-point range".to_string(),
        }
    }
}

} // verus!
