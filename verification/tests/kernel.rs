//! Tests of the fixed-point logarithm and the BM25 scoring kernel.

use bm25_agg::errors::Bm25Error;
use bm25_agg::fixed::ln_fixed;
use bm25_agg::score::calculate_bm25;
use bm25_agg::SCALE;

fn f64_bm25(doc_len: f64, fq: f64, tf: f64, corpus: f64, avg: f64, k1: f64, b: f64) -> f64 {
    let idf = ((corpus - tf + 0.5) / (tf + 0.5)).ln();
    idf * (fq * (k1 + 1.0)) / (fq + k1 * (1.0 - b + b * (doc_len / avg)))
}

const K1: i64 = 1258291;
const B: i64 = 786432;
const AVG3: i64 = 3 * SCALE;

#[test]
fn ln_fixed_of_two() {
    // floor(ln 2 * 2^20) = 726817
    assert_eq!(ln_fixed(2, 1), 726817);
    assert_eq!(ln_fixed(1, 2), -726817);
}

#[test]
fn ln_fixed_of_equal_arguments_is_zero() {
    assert_eq!(ln_fixed(1, 1), 0);
    assert_eq!(ln_fixed(5, 5), 0);
    assert_eq!(ln_fixed(123456789, 123456789), 0);
}

#[test]
fn ln_fixed_sign_follows_ratio() {
    assert!(ln_fixed(9, 2) > 0);
    assert!(ln_fixed(2, 9) < 0);
    assert_eq!(ln_fixed(9, 2), -ln_fixed(2, 9));
}

#[test]
fn ln_fixed_close_to_real_logarithm() {
    for (num, den) in [(3u64, 1u64), (10, 7), (1000000, 3), (5, 4), (7, 8), (1, 1000)] {
        let exact = (num as f64 / den as f64).ln() * SCALE as f64;
        let got = ln_fixed(num, den) as f64;
        assert!(
            (got - exact).abs() < 64.0,
            "ln({num}/{den}): got {got}, expected about {exact}"
        );
    }
}

#[test]
fn kernel_exact_values() {
    // The literal corpus: four documents of length three.
    assert_eq!(calculate_bm25(3 * SCALE, 1, 2, 4, AVG3, K1, B), Ok(0));
    assert_eq!(calculate_bm25(3 * SCALE, 1, 4, 4, AVG3, K1, B), Ok(-2303956));
    assert_eq!(calculate_bm25(3 * SCALE, 2, 4, 4, AVG3, K1, B), Ok(-3167937));
    assert_eq!(calculate_bm25(3 * SCALE, 1, 1, 4, AVG3, K1, B), Ok(888456));
}

#[test]
fn kernel_close_to_float_formula() {
    for (dl, fq, tf, corpus) in [(3i32, 1i32, 2i32, 4u64), (3, 2, 4, 4), (7, 3, 5, 100), (2, 1, 1, 4)] {
        let got = calculate_bm25((dl as i64) * SCALE, fq, tf, corpus, AVG3, K1, B).unwrap();
        let exact =
            f64_bm25(dl as f64, fq as f64, tf as f64, corpus as f64, 3.0, 1.2, 0.75) * SCALE as f64;
        assert!(
            (got as f64 - exact).abs() < 200.0,
            "bm25({dl},{fq},{tf},{corpus}): got {got}, expected about {exact}"
        );
    }
}

#[test]
fn kernel_rejects_zero_avg_doc_len() {
    assert_eq!(
        calculate_bm25(3 * SCALE, 1, 2, 4, 0, K1, B),
        Err(Bm25Error::Numeric)
    );
}

#[test]
fn kernel_rejects_term_freq_beyond_corpus() {
    // ln of a non-positive ratio is undefined.
    assert_eq!(
        calculate_bm25(3 * SCALE, 1, 5, 4, AVG3, K1, B),
        Err(Bm25Error::Numeric)
    );
    assert_eq!(
        calculate_bm25(3 * SCALE, 1, -1, 4, AVG3, K1, B),
        Err(Bm25Error::Numeric)
    );
}

#[test]
fn kernel_reports_overflow() {
    // A denominator of one fixed-point unit blows the score out of range.
    assert_eq!(
        calculate_bm25(
            -2147483647 * SCALE,
            2147483647,
            1,
            4,
            1073741823,
            1073741823,
            1048576,
        ),
        Err(Bm25Error::Overflow)
    );
}

#[test]
fn positive_idf_gives_nonnegative_contributions() {
    // Any term in less than half of the corpus contributes >= 0.
    for fq in 0..5i32 {
        for dl in 0..6i32 {
            let v = calculate_bm25((dl as i64) * SCALE, fq, 1, 4, AVG3, K1, B).unwrap();
            assert!(v >= 0, "contribution for fq={fq}, dl={dl} was {v}");
        }
    }
}
