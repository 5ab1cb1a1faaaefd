//! Tests of the Bloom promotion path, the over-collection heap, and the
//! deliberate unlimited-mode asymmetry.

use bm25_agg::agg::{bm25_agg_base, bm25_agg_limit};
use bm25_agg::finalize::Bm25Result;
use bm25_agg::rows::{AggRow, IntColumn, TermRow};
use bm25_agg::state::BM25InternalState;
use bm25_agg::SCALE;
use std::collections::hash_map::RandomState;

const AVG3: i64 = 3 * SCALE;
const CORPUS: i32 = 2000001;

type Filter = fastbloom::BloomFilter<RandomState>;

fn member_filter(ids: &[i32]) -> Filter {
    let mut f: Filter = fastbloom::BloomFilter::with_num_bits(8192)
        .hasher(RandomState::new())
        .expected_items(ids.len());
    for id in ids {
        f.insert(id);
    }
    f
}

/// One hundred and one documents, each containing the seed term once.
fn seed_row() -> AggRow {
    let ids: Vec<i32> = (1..=101).collect();
    AggRow::Record(TermRow {
        term: "seed".to_string(),
        term_freq: Some(101),
        doc_ids: Some(IntColumn::I32(ids)),
        fqs: Some(IntColumn::I32(vec![1; 101])),
        doc_lens: Some(IntColumn::I32(vec![3; 101])),
        doc_ids_bloom: None,
    })
}

/// A row carrying only a Bloom filter: the posting arrays are absent, so
/// any attempt to read them would fail with a schema error.
fn bloom_row(tf: i32, members: &[i32]) -> AggRow {
    AggRow::Record(TermRow {
        term: "rare".to_string(),
        term_freq: Some(tf),
        doc_ids: None,
        fqs: None,
        doc_lens: None,
        doc_ids_bloom: Some(member_filter(members)),
    })
}

const SEED_CONTRIBUTION: i64 = 10368895;
const REP_CONTRIBUTION: i64 = 13899812;

#[test]
fn promotion_takes_the_bloom_path_without_reading_arrays() {
    let st = bm25_agg_limit::state(None, seed_row(), 200, CORPUS, AVG3).unwrap();
    // More than one hundred exact scores and a Bloom column: the arrays
    // (absent here) must not be read.
    let st = bm25_agg_limit::state(Some(st), bloom_row(3, &[1, 2, 3]), 200, CORPUS, AVG3)
        .unwrap();
    let res = bm25_agg_limit::finalize(Some(st)).unwrap();
    assert_eq!(res.len(), 101);
    // Members of the filter carry the representative contribution on top
    // of their exact score; ties resolve by doc id descending.
    assert_eq!(res[0].doc_id, 3);
    assert_eq!(res[1].doc_id, 2);
    assert_eq!(res[2].doc_id, 1);
    for r in &res[..3] {
        assert_eq!(r.bm25, SEED_CONTRIBUTION + REP_CONTRIBUTION);
    }
    assert_eq!(res[3].doc_id, 101);
    assert_eq!(res[3].bm25, SEED_CONTRIBUTION);
}

#[test]
fn bloom_is_not_consulted_below_the_threshold() {
    // With one hundred or fewer exact scores the Bloom column is ignored
    // and the arrays are required.
    let err = bm25_agg_limit::state(None, bloom_row(3, &[1, 2, 3]), 200, CORPUS, AVG3)
        .unwrap_err();
    assert_eq!(err, bm25_agg::errors::Bm25Error::MissingColumn);
}

#[test]
fn bloom_scores_stay_within_the_promised_mass() {
    let st = bm25_agg_limit::state(None, seed_row(), 200, CORPUS, AVG3).unwrap();
    let st = bm25_agg_limit::state(Some(st), bloom_row(3, &[1, 2, 3]), 200, CORPUS, AVG3)
        .unwrap();
    let res = bm25_agg_limit::finalize(Some(st)).unwrap();
    // Every final score is at most the exact score plus the total
    // representative mass, and at least the exact score.
    for r in &res {
        assert!(r.bm25 >= SEED_CONTRIBUTION);
        assert!(r.bm25 <= SEED_CONTRIBUTION + REP_CONTRIBUTION);
    }
}

#[test]
fn over_collection_heap_keeps_the_strongest() {
    // Twenty-five documents with strictly increasing term frequency, a
    // limit of two: the heap holds at most twenty candidates, and the two
    // strongest must survive.
    let ids: Vec<i32> = (1..=25).collect();
    let fqs: Vec<i32> = (1..=25).collect();
    let lens: Vec<i32> = vec![3; 25];
    let r = AggRow::Record(TermRow {
        term: "graded".to_string(),
        term_freq: Some(25),
        doc_ids: Some(IntColumn::I32(ids)),
        fqs: Some(IntColumn::I32(fqs)),
        doc_lens: Some(IntColumn::I32(lens)),
        doc_ids_bloom: None,
    });
    let st = bm25_agg_limit::state(None, r, 2, 1000, AVG3).unwrap();
    let res = bm25_agg_limit::finalize(Some(st)).unwrap();
    assert_eq!(res.len(), 2);
    assert_eq!(res[0].doc_id, 25);
    assert_eq!(res[1].doc_id, 24);
    assert!(res[0].bm25 > res[1].bm25);
}

fn hand_built_state() -> BM25InternalState {
    // Three documents with known exact scores and one captured Bloom
    // entry whose filter reports document 1 as a member.
    let mut st = BM25InternalState::default();
    st.scores.insert(1, 5 * SCALE);
    st.scores.insert(2, 9 * SCALE);
    st.scores.insert(3, 7 * SCALE);
    st.doc_order = vec![1, 2, 3];
    st.blooms.push((100 * SCALE, member_filter(&[1])));
    st.limit = None;
    st
}

#[test]
fn unlimited_mode_does_not_fold_bloom_contributions() {
    // The deliberate asymmetry: without a limit the captured Bloom
    // entries are ignored.
    let res = bm25_agg_base::finalize(Some(hand_built_state())).unwrap();
    assert_eq!(
        res,
        vec![
            Bm25Result { doc_id: 2, bm25: 9 * SCALE },
            Bm25Result { doc_id: 3, bm25: 7 * SCALE },
            Bm25Result { doc_id: 1, bm25: 5 * SCALE },
        ]
    );
}

#[test]
fn limited_mode_folds_bloom_contributions() {
    let mut st = hand_built_state();
    st.limit = Some(3);
    let res = bm25_agg_base::finalize(Some(st)).unwrap();
    assert_eq!(
        res,
        vec![
            Bm25Result { doc_id: 1, bm25: 105 * SCALE },
            Bm25Result { doc_id: 2, bm25: 9 * SCALE },
            Bm25Result { doc_id: 3, bm25: 7 * SCALE },
        ]
    );
}
