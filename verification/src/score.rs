//! The BM25 scoring kernel.
//!
//! A contribution of one term to one document is
//! `idf * (fq*(k1+1)) / (fq + k1*(1 - b + b*(doc_len/avg_doc_len)))` with
//! `idf = ln((corpus_size - term_freq + 0.5) / (term_freq + 0.5))`, evaluated
//! here in fixed point at `SCALE` with truncating division at every step.
//! The two halves of the idf ratio are doubled so they stay integers.

use vstd::prelude::*;
use vstd::arithmetic::div_mod::{lemma_div_is_ordered, lemma_div_pos_is_pos};
use crate::errors::Bm25Error;
use crate::fixed::{
    abs_int, ln_fixed, lemma_spec_ln_sign, spec_ln, spec_tdiv, tdiv128, LN_ABS_MAX, LN_ARG_MAX,
    SCALE,
};

verus! {

/// Inclusive bound on fixed-point document lengths (2^51): any `i32` length
/// scaled by `SCALE` fits.
pub const DOCLEN_FX_MAX: i64 = 2251799813685248;

/// Inclusive bound on the magnitude of the fixed-point `k1` and `b`
/// parameters (2^30, about one thousand in whole units).
pub const PARAM_FX_MAX: i64 = 1073741824;

/// Inclusive bound on the corpus size (`i32::MAX`, as the public entry
/// points take it as a 32-bit integer).
pub const CORPUS_MAX: u64 = 2147483647;

/// Whether a mathematical integer fits an `i64`.
pub open spec fn in_i64(v: int) -> bool {
    i64::MIN <= v <= i64::MAX
}

/// The scoring kernel on an already-computed idf, with the exact error
/// cases: a zero average document length or a zero denominator is a numeric
/// error, a result outside the fixed-point range is an overflow.
pub open spec fn spec_kernel(idf: int, doc_len_fx: int, fq: int, k1: int, b: int, avg: int)
    -> Result<i64, Bm25Error> {
    if avg <= 0 {
        Err(Bm25Error::Numeric)
    } else {
        let ratio = spec_tdiv(doc_len_fx * (SCALE as int), avg);
        let inner = (SCALE as int) - b + spec_tdiv(b * ratio, SCALE as int);
        let denom = fq * (SCALE as int) + spec_tdiv(k1 * inner, SCALE as int);
        if denom == 0 {
            Err(Bm25Error::Numeric)
        } else {
            let frac = spec_tdiv(fq * (k1 + SCALE) * (SCALE as int), denom);
            let v = spec_tdiv(idf * frac, SCALE as int);
            if in_i64(v) {
                Ok(v as i64)
            } else {
                Err(Bm25Error::Overflow)
            }
        }
    }
}

/// The full kernel: idf from the corpus statistics, then `spec_kernel`.
/// A non-positive logarithm argument is a numeric error.
pub open spec fn spec_calculate_bm25(
    doc_len_fx: int,
    fq: int,
    term_freq: int,
    corpus_size: int,
    avg: int,
    k1: int,
    b: int,
) -> Result<i64, Bm25Error> {
    let num = 2 * corpus_size - 2 * term_freq + 1;
    let den = 2 * term_freq + 1;
    if num <= 0 || den <= 0 {
        Err(Bm25Error::Numeric)
    } else {
        spec_kernel(spec_ln(num, den), doc_len_fx, fq, k1, b, avg)
    }
}

/// One BM25 contribution in fixed point.
///
/// `doc_len_fx` and `avg_doc_len_fx` carry `SCALE` fractional units; `fq`
/// and `term_freq` are plain counts.  The result is exactly
/// `spec_calculate_bm25` on the same arguments.
pub fn calculate_bm25(
    doc_len_fx: i64,
    fq: i32,
    term_freq: i32,
    corpus_size: u64,
    avg_doc_len_fx: i64,
    bm25_k1_fx: i64,
    bm25_b_fx: i64,
) -> (r: Result<i64, Bm25Error>)
    requires
        1 <= corpus_size <= CORPUS_MAX,
        abs_int(doc_len_fx as int) <= DOCLEN_FX_MAX,
        0 <= avg_doc_len_fx <= DOCLEN_FX_MAX,
        abs_int(bm25_k1_fx as int) <= PARAM_FX_MAX,
        abs_int(bm25_b_fx as int) <= PARAM_FX_MAX,
    ensures
        r == spec_calculate_bm25(
            doc_len_fx as int,
            fq as int,
            term_freq as int,
            corpus_size as int,
            avg_doc_len_fx as int,
            bm25_k1_fx as int,
            bm25_b_fx as int,
        ),
{
    let num_i: i64 = 2 * (corpus_size as i64) - 2 * (term_freq as i64) + 1;
    let den_i: i64 = 2 * (term_freq as i64) + 1;
    if num_i <= 0 || den_i <= 0 {
        return Err(Bm25Error::Numeric);
    }
    assert(num_i < LN_ARG_MAX);
    assert(den_i < LN_ARG_MAX);
    let idf: i64 = ln_fixed(num_i as u64, den_i as u64);
    if avg_doc_len_fx == 0 {
        return Err(Bm25Error::Numeric);
    }
    let dl: i128 = doc_len_fx as i128;
    proof {
        assert(abs_int((dl as int) * (SCALE as int)) <= 0x800000000000000000int)
            by (nonlinear_arith)
            requires
                abs_int(dl as int) <= DOCLEN_FX_MAX as int,
                SCALE == 0x100000,
                DOCLEN_FX_MAX == 0x8000000000000,
        ;
    }
    let m1: i128 = dl * (SCALE as i128);
    let ratio: i128 = tdiv128(m1, avg_doc_len_fx as i128);
    proof {
        assert(abs_int((bm25_b_fx as int) * (ratio as int)) <= 0x20000000000000000000000000int)
            by (nonlinear_arith)
            requires
                abs_int(bm25_b_fx as int) <= PARAM_FX_MAX as int,
                abs_int(ratio as int) <= 0x800000000000000000int,
                PARAM_FX_MAX == 0x40000000,
        ;
    }
    let m2: i128 = (bm25_b_fx as i128) * ratio;
    let t2: i128 = tdiv128(m2, SCALE as i128);
    proof {
        lemma_div_is_ordered(
            abs_int(m2 as int),
            0x20000000000000000000000000int,
            SCALE as int,
        );
        assert(0x20000000000000000000000000int / 0x100000int == 0x200000000000000000000int);
        assert(abs_int(t2 as int) <= 0x200000000000000000000int);
    }
    let inner: i128 = (SCALE as i128) - (bm25_b_fx as i128) + t2;
    proof {
        assert(abs_int((bm25_k1_fx as int) * (inner as int)) <= 0x10000000000000000000000000000int)
            by (nonlinear_arith)
            requires
                abs_int(bm25_k1_fx as int) <= PARAM_FX_MAX as int,
                abs_int(inner as int) <= 0x400000000000000000000int,
                PARAM_FX_MAX == 0x40000000,
        ;
    }
    let m3: i128 = (bm25_k1_fx as i128) * inner;
    let t3: i128 = tdiv128(m3, SCALE as i128);
    proof {
        lemma_div_is_ordered(
            abs_int(m3 as int),
            0x10000000000000000000000000000int,
            SCALE as int,
        );
        assert(0x10000000000000000000000000000int / 0x100000int == 0x100000000000000000000000int);
        assert(abs_int(t3 as int) <= 0x100000000000000000000000int);
    }
    let denom: i128 = (fq as i128) * (SCALE as i128) + t3;
    if denom == 0 {
        return Err(Bm25Error::Numeric);
    }
    proof {
        assert(abs_int((fq as int) * ((bm25_k1_fx as int) + (SCALE as int)))
            <= 0x4000000000000000int) by (nonlinear_arith)
            requires
                abs_int(fq as int) <= 0x80000000int,
                abs_int((bm25_k1_fx as int) + (SCALE as int)) <= 0x80000000int,
        ;
    }
    let numer: i128 = (fq as i128) * ((bm25_k1_fx as i128) + (SCALE as i128));
    proof {
        assert(abs_int((numer as int) * (SCALE as int)) <= 0x400000000000000000000int)
            by (nonlinear_arith)
            requires
                abs_int(numer as int) <= 0x4000000000000000int,
                SCALE == 0x100000,
        ;
    }
    let m4: i128 = numer * (SCALE as i128);
    let frac: i128 = tdiv128(m4, denom);
    proof {
        assert(abs_int((idf as int) * (frac as int)) <= 0x1000000000000000000000000000int)
            by (nonlinear_arith)
            requires
                abs_int(idf as int) <= LN_ABS_MAX as int,
                abs_int(frac as int) <= 0x400000000000000000000int,
                LN_ABS_MAX == 0x4000000,
        ;
    }
    let m5: i128 = (idf as i128) * frac;
    let v: i128 = tdiv128(m5, SCALE as i128);
    if v > (i64::MAX as i128) || v < (i64::MIN as i128) {
        Err(Bm25Error::Overflow)
    } else {
        Ok(v as i64)
    }
}

/// Score non-negativity for positive idf: a term occurring in fewer than
/// half of the corpus documents gives every document a non-negative
/// contribution, whenever the inputs themselves are non-negative and the
/// length-normalization parameter does not exceed one.
pub proof fn lemma_bm25_nonneg(
    doc_len_fx: int,
    fq: int,
    term_freq: int,
    corpus_size: int,
    avg: int,
    k1: int,
    b: int,
    v: i64,
)
    requires
        0 <= term_freq,
        2 * term_freq < corpus_size,
        0 <= doc_len_fx,
        0 <= fq,
        0 <= k1,
        0 <= b <= SCALE,
        spec_calculate_bm25(doc_len_fx, fq, term_freq, corpus_size, avg, k1, b) == Ok::<
            i64,
            Bm25Error,
        >(v),
    ensures
        v >= 0,
{
    let num = 2 * corpus_size - 2 * term_freq + 1;
    let den = 2 * term_freq + 1;
    assert(num > den);
    lemma_spec_ln_sign(num, den);
    let idf = spec_ln(num, den);
    assert(avg > 0);
    assert(doc_len_fx * (SCALE as int) >= 0) by (nonlinear_arith)
        requires
            doc_len_fx >= 0,
            SCALE > 0,
    ;
    let ratio = spec_tdiv(doc_len_fx * (SCALE as int), avg);
    lemma_div_pos_is_pos(doc_len_fx * (SCALE as int), avg);
    assert(ratio >= 0);
    assert(b * ratio >= 0) by (nonlinear_arith)
        requires
            b >= 0,
            ratio >= 0,
    ;
    lemma_div_pos_is_pos(b * ratio, SCALE as int);
    let inner = (SCALE as int) - b + spec_tdiv(b * ratio, SCALE as int);
    assert(inner >= 0);
    assert(k1 * inner >= 0) by (nonlinear_arith)
        requires
            k1 >= 0,
            inner >= 0,
    ;
    lemma_div_pos_is_pos(k1 * inner, SCALE as int);
    let denom = fq * (SCALE as int) + spec_tdiv(k1 * inner, SCALE as int);
    assert(fq * SCALE >= 0) by (nonlinear_arith)
        requires
            fq >= 0,
            SCALE > 0,
    ;
    assert(denom >= 0);
    assert(denom != 0);
    assert(fq * (k1 + SCALE) * (SCALE as int) >= 0) by (nonlinear_arith)
        requires
            fq >= 0,
            k1 >= 0,
            SCALE > 0,
    ;
    let frac = spec_tdiv(fq * (k1 + SCALE) * (SCALE as int), denom);
    lemma_div_pos_is_pos(fq * (k1 + SCALE) * (SCALE as int), denom);
    assert(frac >= 0);
    assert(idf * frac >= 0) by (nonlinear_arith)
        requires
            idf >= 0,
            frac >= 0,
    ;
    lemma_div_pos_is_pos(idf * frac, SCALE as int);
}

} // verus!
