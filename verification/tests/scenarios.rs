//! End-to-end aggregation scenarios over the literal four-document corpus:
//!
//! ```text
//! 1: apple banana orange
//! 2: apple apple banana
//! 3: banana banana orange
//! 4: kiwi pineapple banana
//! ```

use bm25_agg::agg::{bm25_agg_base, bm25_agg_limit, bm25_agg_limit_bm25params};
use bm25_agg::errors::Bm25Error;
use bm25_agg::finalize::Bm25Result;
use bm25_agg::rows::{AggRow, IntColumn, TermRow};
use bm25_agg::state::BM25InternalState;
use bm25_agg::SCALE;

const AVG3: i64 = 3 * SCALE;

fn row(term: &str, tf: i32, ids: Vec<i32>, fqs: Vec<i32>, lens: Vec<i32>) -> AggRow {
    AggRow::Record(TermRow {
        term: term.to_string(),
        term_freq: Some(tf),
        doc_ids: Some(IntColumn::I32(ids)),
        fqs: Some(IntColumn::I32(fqs)),
        doc_lens: Some(IntColumn::I32(lens)),
        doc_ids_bloom: None,
    })
}

fn apple() -> AggRow {
    row("apple", 2, vec![1, 2], vec![1, 2], vec![3, 3])
}

fn banana() -> AggRow {
    row("banana", 4, vec![1, 2, 3, 4], vec![1, 1, 2, 1], vec![3, 3, 3, 3])
}

fn orange() -> AggRow {
    row("orange", 2, vec![1, 3], vec![1, 1], vec![3, 3])
}

fn kiwi() -> AggRow {
    row("kiwi", 1, vec![4], vec![1], vec![3])
}

fn run_limit(rows: Vec<AggRow>, limit: i32) -> Result<Vec<Bm25Result>, Bm25Error> {
    let mut st: Option<BM25InternalState> = None;
    for r in rows {
        st = Some(bm25_agg_limit::state(st, r, limit, 4, AVG3)?);
    }
    bm25_agg_limit::finalize(st)
}

fn docs(res: &[Bm25Result]) -> Vec<i64> {
    res.iter().map(|r| r.doc_id).collect()
}

#[test]
fn scenario_apple_banana_limit_ten() {
    let res = run_limit(vec![apple(), banana()], 10).unwrap();
    assert_eq!(res.len(), 4);
    // Docs 1, 2 and 4 tie exactly (apple's idf is ln(1) = 0, so only
    // banana's fq=1 contribution counts for them); ties resolve by doc id
    // descending.  Doc 3 (banana twice) is most negative and comes last.
    assert_eq!(docs(&res), vec![4, 2, 1, 3]);
    assert_eq!(res[0].bm25, -2303956);
    assert_eq!(res[1].bm25, -2303956);
    assert_eq!(res[2].bm25, -2303956);
    assert_eq!(res[3].bm25, -3167937);
}

#[test]
fn scenario_orange_limit_two() {
    let res = run_limit(vec![orange()], 2).unwrap();
    assert_eq!(res.len(), 2);
    // orange is in exactly half of the corpus: idf = ln(1) = 0.
    assert_eq!(res[0].bm25, 0);
    assert_eq!(res[1].bm25, 0);
    let mut d = docs(&res);
    d.sort();
    assert_eq!(d, vec![1, 3]);
}

#[test]
fn scenario_banana_everywhere_negative_scores() {
    let res = run_limit(vec![banana()], 4).unwrap();
    assert_eq!(res.len(), 4);
    // All four scores are negative; doc 3 carries fq = 2 and ranks last.
    for r in &res {
        assert!(r.bm25 < 0);
    }
    assert_eq!(res[3].doc_id, 3);
    assert_eq!(res[3].bm25, -3167937);
}

#[test]
fn row_order_does_not_change_results() {
    let forward = run_limit(vec![apple(), banana(), orange(), kiwi()], 10).unwrap();
    let backward = run_limit(vec![kiwi(), orange(), banana(), apple()], 10).unwrap();
    assert_eq!(forward, backward);
}

#[test]
fn reducing_limit_yields_a_prefix() {
    let wide = run_limit(vec![apple(), banana()], 2).unwrap();
    let narrow = run_limit(vec![apple(), banana()], 1).unwrap();
    assert_eq!(narrow.len(), 1);
    assert_eq!(&wide[..1], &narrow[..]);
}

#[test]
fn finalizing_before_any_row_is_empty() {
    let res = bm25_agg_base::finalize(None).unwrap();
    assert!(res.is_empty());
    let res = bm25_agg_limit::finalize(None).unwrap();
    assert!(res.is_empty());
}

#[test]
fn base_variant_requires_configuration() {
    assert_eq!(
        bm25_agg_base::state(None, apple()).unwrap_err(),
        Bm25Error::ConfigMissing
    );
}

#[test]
fn non_record_rows_are_rejected() {
    assert_eq!(
        bm25_agg_limit::state(None, AggRow::NonRecord, 10, 4, AVG3).unwrap_err(),
        Bm25Error::NotRecord
    );
}

#[test]
fn negative_configuration_is_rejected() {
    assert_eq!(
        bm25_agg_limit::state(None, apple(), -1, 4, AVG3).unwrap_err(),
        Bm25Error::NegativeLimit
    );
    assert_eq!(
        bm25_agg_limit::state(None, apple(), 10, 0, AVG3).unwrap_err(),
        Bm25Error::NegativeCorpusSize
    );
    assert_eq!(
        bm25_agg_limit::state(None, apple(), 10, 4, -1).unwrap_err(),
        Bm25Error::NegativeAvgDocLen
    );
}

#[test]
fn zero_avg_doc_len_fails_during_transition() {
    // The analogue of silent-NaN propagation: a zero average document
    // length is a fatal numeric error at the first scored row.
    assert_eq!(
        bm25_agg_limit::state(None, apple(), 10, 4, 0).unwrap_err(),
        Bm25Error::Numeric
    );
}

#[test]
fn missing_term_freq_is_rejected() {
    let r = AggRow::Record(TermRow {
        term: "apple".to_string(),
        term_freq: None,
        doc_ids: Some(IntColumn::I32(vec![1])),
        fqs: Some(IntColumn::I32(vec![1])),
        doc_lens: Some(IntColumn::I32(vec![3])),
        doc_ids_bloom: None,
    });
    assert_eq!(
        bm25_agg_limit::state(None, r, 10, 4, AVG3).unwrap_err(),
        Bm25Error::MissingTermFreq
    );
}

#[test]
fn missing_posting_column_is_rejected() {
    let r = AggRow::Record(TermRow {
        term: "apple".to_string(),
        term_freq: Some(2),
        doc_ids: None,
        fqs: Some(IntColumn::I32(vec![1, 2])),
        doc_lens: Some(IntColumn::I32(vec![3, 3])),
        doc_ids_bloom: None,
    });
    assert_eq!(
        bm25_agg_limit::state(None, r, 10, 4, AVG3).unwrap_err(),
        Bm25Error::MissingColumn
    );
}

#[test]
fn wide_element_type_is_rejected() {
    // int64 arrays are reserved but rejected; the caller sees the cast
    // warning and then this fatal error.
    let r = AggRow::Record(TermRow {
        term: "apple".to_string(),
        term_freq: Some(2),
        doc_ids: Some(IntColumn::I64(vec![1, 2])),
        fqs: Some(IntColumn::I32(vec![1, 2])),
        doc_lens: Some(IntColumn::I32(vec![3, 3])),
        doc_ids_bloom: None,
    });
    assert_eq!(
        bm25_agg_limit::state(None, r, 10, 4, AVG3).unwrap_err(),
        Bm25Error::UnsupportedColumnType
    );
    let r16 = AggRow::Record(TermRow {
        term: "apple".to_string(),
        term_freq: Some(2),
        doc_ids: Some(IntColumn::I16(vec![1, 2])),
        fqs: Some(IntColumn::I32(vec![1, 2])),
        doc_lens: Some(IntColumn::I32(vec![3, 3])),
        doc_ids_bloom: None,
    });
    assert_eq!(
        bm25_agg_limit::state(None, r16, 10, 4, AVG3).unwrap_err(),
        Bm25Error::UnsupportedColumnType
    );
}

#[test]
fn parameterized_variant_matches_default_parameters() {
    let mut st: Option<BM25InternalState> = None;
    for r in [apple(), banana()] {
        st = Some(
            bm25_agg_limit_bm25params::state(st, r, 10, 4, AVG3, 1258291, 786432).unwrap(),
        );
    }
    let via_params = bm25_agg_limit_bm25params::finalize(st).unwrap();
    let via_default = run_limit(vec![apple(), banana()], 10).unwrap();
    assert_eq!(via_params, via_default);
}

#[test]
fn contributions_to_the_same_document_add_up() {
    // kiwi gives doc 4 a positive contribution, banana a negative one.
    let res = run_limit(vec![kiwi(), banana()], 10).unwrap();
    let doc4 = res.iter().find(|r| r.doc_id == 4).unwrap();
    assert_eq!(doc4.bm25, 888456 + -2303956);
}

#[test]
fn zero_limit_returns_nothing() {
    let res = run_limit(vec![apple(), banana()], 0).unwrap();
    assert!(res.is_empty());
}
