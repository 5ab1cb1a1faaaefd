//! The public aggregate entry points.
//!
//! Three variants share the per-row transition and differ only in which
//! configuration fields they populate before delegating: the base variant
//! takes the row alone (and fails on the first row unless the
//! configuration was set by an earlier variant call on the same state),
//! the limited variant additionally takes `limit`, `corpus_size` and
//! `avg_doc_len`, and the parameterized variant also takes `k1` and `b`.
//! The state is created lazily: a `None` state stands for a fresh
//! aggregation.

use vstd::prelude::*;
use crate::errors::Bm25Error;
use crate::finalize::{finalize_post, Bm25Result};
use crate::fixed::abs_int;
use crate::rows::AggRow;
use crate::score::{CORPUS_MAX, DOCLEN_FX_MAX, PARAM_FX_MAX};
use crate::state::{
    default_model, entries_of, spec_transition, state_inv, BM25InternalState, StateModel,
};

verus! {

/// The state an entry point starts from: the carried state, or a fresh one.
pub open spec fn init_model(current: Option<BM25InternalState>) -> StateModel {
    match current {
        Some(c) => c@,
        None => default_model(),
    }
}

/// Whether a carried state satisfies the state invariant (a fresh one
/// always does).
pub open spec fn current_inv(current: Option<BM25InternalState>) -> bool {
    match current {
        Some(c) => state_inv(c@),
        None => true,
    }
}

fn get_or_default(current: Option<BM25InternalState>) -> (s: BM25InternalState)
    requires
        current_inv(current),
    ensures
        s@ == init_model(current),
        state_inv(s@),
{
    match current {
        Some(c) => c,
        None => BM25InternalState::default(),
    }
}

/// The base aggregate: per-row state transition with the configuration
/// already carried by the state.
#[allow(non_camel_case_types)]
#[derive(Clone, Copy, Debug, Default)]
pub struct bm25_agg_base;

impl bm25_agg_base {
    /// Applies one row.  On a fresh state this fails with
    /// `ConfigMissing`: the base variant never sets the configuration.
    pub fn state(current: Option<BM25InternalState>, row: AggRow) -> (r: Result<
        BM25InternalState,
        Bm25Error,
    >)
        requires
            current_inv(current),
        ensures
            match r {
                Ok(st) => spec_transition(init_model(current), row) == Ok::<StateModel, Bm25Error>(
                    st@,
                ) && state_inv(st@),
                Err(e) => spec_transition(init_model(current), row) == Err::<
                    StateModel,
                    Bm25Error,
                >(e),
            },
    {
        let mut inner = get_or_default(current);
        match inner.state_base(row) {
            Ok(()) => Ok(inner),
            Err(e) => Err(e),
        }
    }

    /// Produces the sorted output list.
    pub fn finalize(current: Option<BM25InternalState>) -> (r: Result<Vec<Bm25Result>, Bm25Error>)
        requires
            current_inv(current),
        ensures
            finalize_post(
                entries_of(init_model(current).scores, init_model(current).order),
                init_model(current).blooms,
                init_model(current).limit,
                r,
            ),
    {
        let inner = get_or_default(current);
        inner.finalize_base()
    }
}

/// The limited aggregate: validates and sets `limit`, `corpus_size` and
/// `avg_doc_len` before the shared transition.
#[allow(non_camel_case_types)]
#[derive(Clone, Copy, Debug, Default)]
pub struct bm25_agg_limit;

/// The configuration validation shared by the limited variants, and the
/// transition that follows it.
pub open spec fn spec_limit_state(
    s0: StateModel,
    row: AggRow,
    limit_count: i32,
    corpus_size: i32,
    avg_doc_len_fx: i64,
) -> Result<StateModel, Bm25Error> {
    if limit_count < 0 {
        Err(Bm25Error::NegativeLimit)
    } else if corpus_size <= 0 {
        Err(Bm25Error::NegativeCorpusSize)
    } else if avg_doc_len_fx < 0 {
        Err(Bm25Error::NegativeAvgDocLen)
    } else {
        spec_transition(
            StateModel {
                limit: Some(limit_count as usize),
                corpus_size: Some(corpus_size as u64),
                avg_doc_len_fx: Some(avg_doc_len_fx),
                ..s0
            },
            row,
        )
    }
}

impl bm25_agg_limit {
    /// Applies one row after validating and setting the configuration.
    pub fn state(
        current: Option<BM25InternalState>,
        row: AggRow,
        limit_count: i32,
        corpus_size: i32,
        avg_doc_len_fx: i64,
    ) -> (r: Result<BM25InternalState, Bm25Error>)
        requires
            current_inv(current),
            avg_doc_len_fx <= DOCLEN_FX_MAX,
        ensures
            match r {
                Ok(st) => spec_limit_state(
                    init_model(current),
                    row,
                    limit_count,
                    corpus_size,
                    avg_doc_len_fx,
                ) == Ok::<StateModel, Bm25Error>(st@) && state_inv(st@),
                Err(e) => spec_limit_state(
                    init_model(current),
                    row,
                    limit_count,
                    corpus_size,
                    avg_doc_len_fx,
                ) == Err::<StateModel, Bm25Error>(e),
            },
    {
        if limit_count < 0 {
            return Err(Bm25Error::NegativeLimit);
        }
        if corpus_size <= 0 {
            return Err(Bm25Error::NegativeCorpusSize);
        }
        if avg_doc_len_fx < 0 {
            return Err(Bm25Error::NegativeAvgDocLen);
        }
        let mut inner = get_or_default(current);
        inner.set_limit(limit_count as usize);
        inner.set_corpus_size(corpus_size as u64);
        inner.set_avg_doc_len(avg_doc_len_fx);
        match inner.state_base(row) {
            Ok(()) => Ok(inner),
            Err(e) => Err(e),
        }
    }

    /// Produces the sorted output list.
    pub fn finalize(current: Option<BM25InternalState>) -> (r: Result<Vec<Bm25Result>, Bm25Error>)
        requires
            current_inv(current),
        ensures
            finalize_post(
                entries_of(init_model(current).scores, init_model(current).order),
                init_model(current).blooms,
                init_model(current).limit,
                r,
            ),
    {
        let inner = get_or_default(current);
        inner.finalize_base()
    }
}

/// The parameterized aggregate: as the limited one, plus `k1` and `b`.
#[allow(non_camel_case_types)]
#[derive(Clone, Copy, Debug, Default)]
pub struct bm25_agg_limit_bm25params;

impl bm25_agg_limit_bm25params {
    /// Applies one row after validating the configuration and setting the
    /// BM25 parameters.
    pub fn state(
        current: Option<BM25InternalState>,
        row: AggRow,
        limit_count: i32,
        corpus_size: i32,
        avg_doc_len_fx: i64,
        k1_fx: i64,
        b_fx: i64,
    ) -> (r: Result<BM25InternalState, Bm25Error>)
        requires
            current_inv(current),
            avg_doc_len_fx <= DOCLEN_FX_MAX,
            abs_int(k1_fx as int) <= PARAM_FX_MAX,
            abs_int(b_fx as int) <= PARAM_FX_MAX,
        ensures
            match r {
                Ok(st) => spec_limit_state(
                    StateModel { k1_fx, b_fx, ..init_model(current) },
                    row,
                    limit_count,
                    corpus_size,
                    avg_doc_len_fx,
                ) == Ok::<StateModel, Bm25Error>(st@) && state_inv(st@),
                Err(e) => spec_limit_state(
                    StateModel { k1_fx, b_fx, ..init_model(current) },
                    row,
                    limit_count,
                    corpus_size,
                    avg_doc_len_fx,
                ) == Err::<StateModel, Bm25Error>(e),
            },
    {
        if limit_count < 0 {
            return Err(Bm25Error::NegativeLimit);
        }
        if corpus_size <= 0 {
            return Err(Bm25Error::NegativeCorpusSize);
        }
        if avg_doc_len_fx < 0 {
            return Err(Bm25Error::NegativeAvgDocLen);
        }
        let mut inner = get_or_default(current);
        inner.set_params(k1_fx, b_fx);
        inner.set_limit(limit_count as usize);
        inner.set_corpus_size(corpus_size as u64);
        inner.set_avg_doc_len(avg_doc_len_fx);
        match inner.state_base(row) {
            Ok(()) => Ok(inner),
            Err(e) => Err(e),
        }
    }

    /// Produces the sorted output list.
    pub fn finalize(current: Option<BM25InternalState>) -> (r: Result<Vec<Bm25Result>, Bm25Error>)
        requires
            current_inv(current),
        ensures
            finalize_post(
                entries_of(init_model(current).scores, init_model(current).order),
                init_model(current).blooms,
                init_model(current).limit,
                r,
            ),
    {
        let inner = get_or_default(current);
        inner.finalize_base()
    }
}

} // verus!
