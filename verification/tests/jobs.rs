//! Tests of the daemon job types and the error descriptions.

use bm25_agg::encoder::EncoderOptions;
use bm25_agg::errors::Bm25Error;
use bm25_agg::jobs::{EmbeddingJob, JobInsertNotification, JobUpdateNotification};

fn job() -> EmbeddingJob {
    EmbeddingJob {
        id: 7,
        is_init: true,
        db_uri: "postgresql://localhost/test".to_string(),
        schema: "public".to_string(),
        table: "documents".to_string(),
        column: "content".to_string(),
        filter: None,
        out_column: "embedding".to_string(),
        model: "clip/ViT-B-32-textual".to_string(),
        batch_size: None,
    }
}

#[test]
fn set_filter_stores_the_filter() {
    let mut j = job();
    j.set_filter("id > 10");
    assert_eq!(j.filter.as_deref(), Some("id > 10"));
    assert_eq!(j.id, 7);
    assert_eq!(j.table, "documents");
}

#[test]
fn set_is_init_flips_the_flag() {
    let mut j = job();
    j.set_is_init(false);
    assert!(!j.is_init);
    j.set_is_init(true);
    assert!(j.is_init);
}

#[test]
fn notifications_carry_plain_fields() {
    let ins = JobInsertNotification {
        id: 3,
        init: true,
        generate_missing: false,
        row_id: Some("42".to_string()),
        filter: None,
        limit: Some(100),
    };
    assert_eq!(ins.id, 3);
    assert_eq!(ins.limit, Some(100));
    let upd = JobUpdateNotification { id: 3, generate_missing: true };
    assert!(upd.generate_missing);
}

#[test]
fn encoder_options_hold_their_fields() {
    let opts = EncoderOptions { pad_token_sequence: true, input_image_size: 224 };
    assert!(opts.pad_token_sequence);
    assert_eq!(opts.input_image_size, 224);
}

#[test]
fn error_messages_name_the_condition() {
    assert_eq!(
        Bm25Error::NotRecord.message(),
        "bm25_agg aggregate called with non-record type"
    );
    assert_eq!(
        Bm25Error::NegativeLimit.message(),
        "bm25_agg aggregate called with negative limit"
    );
    assert!(Bm25Error::Numeric.message().contains("BM25"));
    assert!(Bm25Error::Overflow.message().contains("range"));
}
