//! Fixed-point arithmetic: truncating division and a natural logarithm.
//!
//! Scores carry 20 fractional bits (`SCALE`).  The logarithm works
//! internally at 32 fractional bits (`LN_UNIT`): the argument `num/den` is
//! normalized into `[1, 2)` by counting doublings of `den`, and the
//! remaining factor is evaluated through the arc-tangent-hyperbolic series
//! `ln x = 2 * (z + z^3/3 + z^5/5 + ...)` with `z = (x-1)/(x+1)`.

use vstd::prelude::*;
use vstd::arithmetic::div_mod::{
    lemma_div_is_ordered, lemma_div_nonincreasing, lemma_div_pos_is_pos,
};
use vstd::arithmetic::power2::{
    lemma2_to64, lemma2_to64_rest, lemma_pow2_adds, lemma_pow2_strictly_increases, pow2,
};

verus! {

/// Fixed-point scale of scores: 2^20 fractional units per whole unit.
pub const SCALE: i64 = 1048576;

/// Internal scale of the logarithm: 2^32 fractional units per whole unit.
pub const LN_UNIT: u64 = 4294967296;

/// floor(ln 2 * 2^32).
pub const LN2_UNIT: u64 = 2977044471;

/// Series terms evaluated for the logarithm; with `z < 1/2` the tail after
/// twelve terms is below one fractional unit of `LN_UNIT`.
pub const LN_TERMS: u64 = 12;

/// Exclusive bound on the arguments `ln_fixed` accepts (2^34).
pub const LN_ARG_MAX: u64 = 17179869184;

/// Inclusive bound on the magnitude of `ln_fixed` results (2^26).
pub const LN_ABS_MAX: i64 = 67108864;

/// The denominator value after normalization: `den` doubled until one more
/// doubling would exceed `num`.
pub open spec fn norm_d(num: int, den: int) -> int
    decreases num - den when 1 <= den <= num
{
    if 2 * den <= num {
        norm_d(num, 2 * den)
    } else {
        den
    }
}

/// How many doublings the normalization performs.
pub open spec fn norm_k(num: int, den: int) -> int
    decreases num - den when 1 <= den <= num
{
    if 2 * den <= num {
        1 + norm_k(num, 2 * den)
    } else {
        0
    }
}

/// Sum of the series terms `z^(2i+1) / (2i+1)` from index `i` on, carried
/// at `LN_UNIT` scale with truncating division at every step.
pub open spec fn ln_series(zsq: int, zpow: int, i: int) -> int
    decreases LN_TERMS - i when 0 <= i <= LN_TERMS
{
    if i >= LN_TERMS {
        0
    } else {
        zpow / (2 * i + 1) + ln_series(zsq, zpow * zsq / (LN_UNIT as int), i + 1)
    }
}

/// `ln(num/den)` at `SCALE`, for `1 <= den <= num`.
pub open spec fn spec_ln_pos(num: int, den: int) -> int {
    let d = norm_d(num, den);
    let k = norm_k(num, den);
    let z = (num - d) * (LN_UNIT as int) / (num + d);
    let zsq = z * z / (LN_UNIT as int);
    (k * (LN2_UNIT as int) + 2 * ln_series(zsq, z, 0)) / 4096
}

/// `ln(num/den)` at `SCALE`, for positive `num` and `den`.
pub open spec fn spec_ln(num: int, den: int) -> int {
    if num >= den {
        spec_ln_pos(num, den)
    } else {
        -spec_ln_pos(den, num)
    }
}

/// Magnitude of an integer.
pub open spec fn abs_int(a: int) -> int {
    if a >= 0 {
        a
    } else {
        -a
    }
}

/// Division truncating toward zero, as the machine division of signed
/// integers behaves.
pub open spec fn spec_tdiv(a: int, b: int) -> int {
    if (a < 0) <==> (b < 0) {
        abs_int(a) / abs_int(b)
    } else {
        -(abs_int(a) / abs_int(b))
    }
}

proof fn lemma_pow2_le(e1: nat, e2: nat)
    ensures
        e1 <= e2 ==> pow2(e1) <= pow2(e2),
{
    if e1 < e2 {
        lemma_pow2_strictly_increases(e1, e2);
    }
}

/// A series whose power argument is zero sums to zero.
proof fn lemma_ln_series_zero(zsq: int, i: int)
    requires
        0 <= i <= LN_TERMS,
    ensures
        ln_series(zsq, 0, i) == 0,
    decreases LN_TERMS - i,
{
    if i < LN_TERMS {
        lemma_ln_series_zero(zsq, i + 1);
    }
}

/// The series is non-negative when its arguments are.
proof fn lemma_ln_series_nonneg(zsq: int, zpow: int, i: int)
    requires
        0 <= i <= LN_TERMS,
        zsq >= 0,
        zpow >= 0,
    ensures
        ln_series(zsq, zpow, i) >= 0,
    decreases LN_TERMS - i,
{
    if i < LN_TERMS {
        lemma_div_pos_is_pos(zpow, 2 * i + 1);
        lemma_div_pos_is_pos(zpow * zsq, LN_UNIT as int);
        assert(zpow * zsq >= 0) by (nonlinear_arith)
            requires
                zpow >= 0,
                zsq >= 0,
        ;
        lemma_ln_series_nonneg(zsq, zpow * zsq / (LN_UNIT as int), i + 1);
    }
}

/// The normalized denominator stays between `den` and `num`.
proof fn lemma_norm_d_range(num: int, den: int)
    requires
        1 <= den <= num,
    ensures
        den <= norm_d(num, den) <= num,
        num < 2 * norm_d(num, den),
        norm_k(num, den) >= 0,
    decreases num - den,
{
    if 2 * den <= num {
        lemma_norm_d_range(num, 2 * den);
    }
}

/// `spec_ln_pos` is non-negative on its domain.
pub proof fn lemma_spec_ln_pos_nonneg(num: int, den: int)
    requires
        1 <= den <= num,
    ensures
        spec_ln_pos(num, den) >= 0,
{
    lemma_norm_d_range(num, den);
    let d = norm_d(num, den);
    let k = norm_k(num, den);
    let z = (num - d) * (LN_UNIT as int) / (num + d);
    assert((num - d) * (LN_UNIT as int) >= 0) by (nonlinear_arith)
        requires
            num - d >= 0,
    ;
    lemma_div_pos_is_pos((num - d) * (LN_UNIT as int), num + d);
    let zsq = z * z / (LN_UNIT as int);
    assert(z * z >= 0) by (nonlinear_arith);
    lemma_div_pos_is_pos(z * z, LN_UNIT as int);
    lemma_ln_series_nonneg(zsq, z, 0);
    assert(k * (LN2_UNIT as int) >= 0) by (nonlinear_arith)
        requires
            k >= 0,
    ;
    lemma_div_pos_is_pos(k * (LN2_UNIT as int) + 2 * ln_series(zsq, z, 0), 4096);
}

/// The fixed-point logarithm of `a/a` is zero.
pub proof fn lemma_spec_ln_pos_zero(a: int)
    requires
        1 <= a,
    ensures
        spec_ln_pos(a, a) == 0,
{
    lemma_norm_d_range(a, a);
    assert(norm_d(a, a) == a);
    assert(norm_k(a, a) == 0);
    assert((a - a) * (LN_UNIT as int) / (a + a) == 0);
    lemma_ln_series_zero(0, 0);
}

/// Sign of the fixed-point logarithm follows the sign of `ln(num/den)`.
pub proof fn lemma_spec_ln_sign(num: int, den: int)
    requires
        1 <= num,
        1 <= den,
    ensures
        num >= den ==> spec_ln(num, den) >= 0,
        num <= den ==> spec_ln(num, den) <= 0,
        num == den ==> spec_ln(num, den) == 0,
{
    if num >= den {
        lemma_spec_ln_pos_nonneg(num, den);
    }
    if num < den {
        lemma_spec_ln_pos_nonneg(den, num);
    }
    if num == den {
        lemma_spec_ln_pos_zero(num);
    }
}

fn normalize(num: u64, den: u64) -> (r: (u64, u64))
    requires
        1 <= den <= num,
        num < LN_ARG_MAX,
    ensures
        r.0 == norm_d(num as int, den as int),
        r.1 == norm_k(num as int, den as int),
        den <= r.0 <= num,
        num < 2 * r.0,
        (den as int) * (pow2(r.1 as nat) as int) == r.0,
        r.1 <= 33,
    decreases num - den,
{
    if 2 * den <= num {
        let (d, k): (u64, u64) = normalize(num, 2 * den);
        proof {
            lemma_pow2_adds(k as nat, 1);
            lemma2_to64();
            assert((den as int) * (pow2((k + 1) as nat) as int) == (2 * den) as int * (pow2(
                k as nat,
            ) as int)) by (nonlinear_arith)
                requires
                    pow2((k + 1) as nat) == pow2(k as nat) * pow2(1) && pow2(1) == 2,
            ;
            assert((pow2((k + 1) as nat) as int) <= d as int) by (nonlinear_arith)
                requires
                    den >= 1,
                    (den as int) * (pow2((k + 1) as nat) as int) == d as int,
                    pow2((k + 1) as nat) >= 0,
            ;
            if k + 1 >= 34 {
                lemma_pow2_le(34, (k + 1) as nat);
                lemma2_to64_rest();
                assert(false);
            }
        }
        (d, k + 1)
    } else {
        proof {
            lemma2_to64();
        }
        (den, 0)
    }
}

fn ln_series_exec(zsq: u64, zpow: u64, i: u64) -> (r: u64)
    requires
        zsq <= 1073741824,
        zpow <= 2147483648,
        i <= LN_TERMS,
    ensures
        r == ln_series(zsq as int, zpow as int, i as int),
        r <= (LN_TERMS - i) * 4294967296,
    decreases LN_TERMS - i,
{
    if i >= LN_TERMS {
        0
    } else {
        let t: u64 = zpow / (2 * i + 1);
        proof {
            assert((zpow as int) * (zsq as int) <= 2147483648int * 1073741824int)
                by (nonlinear_arith)
                requires
                    zpow <= 2147483648,
                    zsq <= 1073741824,
            ;
        }
        let next: u64 = zpow * zsq / LN_UNIT;
        proof {
            lemma_div_is_ordered(
                (zpow as int) * (zsq as int),
                2147483648int * 4294967296int,
                LN_UNIT as int,
            );
            assert(2147483648int * 4294967296int / (LN_UNIT as int) == 2147483648int);
        }
        let rest: u64 = ln_series_exec(zsq, next, i + 1);
        t + rest
    }
}

fn ln_fixed_pos(num: u64, den: u64) -> (r: i64)
    requires
        1 <= den <= num,
        num < LN_ARG_MAX,
    ensures
        r == spec_ln_pos(num as int, den as int),
        0 <= r <= LN_ABS_MAX,
{
    let (d, k): (u64, u64) = normalize(num, den);
    let zwide: u128 = ((num - d) as u128) * (LN_UNIT as u128) / ((num + d) as u128);
    proof {
        // num < 2*d gives 2*(num - d) <= num + d, hence z <= LN_UNIT / 2.
        assert(((num - d) as int) * (LN_UNIT as int) >= 0) by (nonlinear_arith)
            requires
                num >= d,
        ;
        assert(((num - d) as int) * (LN_UNIT as int) <= ((num + d) as int) * 2147483648int)
            by (nonlinear_arith)
            requires
                2 * ((num - d) as int) <= (num + d) as int,
                LN_UNIT == 2 * 2147483648int,
                (num + d) as int >= 0,
                num >= d,
        ;
        lemma_div_is_ordered(
            ((num - d) as int) * (LN_UNIT as int),
            ((num + d) as int) * 2147483648int,
            (num + d) as int,
        );
        assert(((num + d) as int) * 2147483648int / ((num + d) as int) == 2147483648int)
            by (nonlinear_arith)
            requires
                (num + d) as int >= 1,
        ;
        lemma_div_pos_is_pos(((num - d) as int) * (LN_UNIT as int), (num + d) as int);
        assert(zwide <= 2147483648);
    }
    let z: u64 = zwide as u64;
    proof {
        assert((z as int) * (z as int) <= 2147483648int * 2147483648int) by (nonlinear_arith)
            requires
                0 <= z <= 2147483648,
        ;
    }
    let zsq: u64 = z * z / LN_UNIT;
    proof {
        lemma_div_is_ordered(
            (z as int) * (z as int),
            2147483648int * 2147483648int,
            LN_UNIT as int,
        );
        assert(2147483648int * 2147483648int / (LN_UNIT as int) == 1073741824int);
    }
    let acc: u64 = ln_series_exec(zsq, z, 0);
    let total: u64 = k * LN2_UNIT + 2 * acc;
    proof {
        assert((k as int) * (LN2_UNIT as int) <= 33int * (LN2_UNIT as int)) by (nonlinear_arith)
            requires
                k <= 33,
        ;
        lemma_div_is_ordered(total as int, 33int * (LN2_UNIT as int) + 24int * 4294967296int, 4096int);
        assert((33int * (LN2_UNIT as int) + 24int * 4294967296int) / 4096int <= LN_ABS_MAX as int);
    }
    let r: i64 = (total / 4096) as i64;
    r
}

/// `ln(num/den)` in fixed point at `SCALE`.
///
/// The result equals `spec_ln(num, den)`; it is zero when the arguments are
/// equal and its sign is the sign of the exact logarithm.
pub fn ln_fixed(num: u64, den: u64) -> (r: i64)
    requires
        1 <= num < LN_ARG_MAX,
        1 <= den < LN_ARG_MAX,
    ensures
        r == spec_ln(num as int, den as int),
        -LN_ABS_MAX <= r <= LN_ABS_MAX,
        num >= den ==> r >= 0,
        num <= den ==> r <= 0,
        num == den ==> r == 0,
{
    if num >= den {
        let r: i64 = ln_fixed_pos(num, den);
        proof {
            if num == den {
                lemma_spec_ln_pos_zero(num as int);
            }
        }
        r
    } else {
        let r: i64 = ln_fixed_pos(den, num);
        -r
    }
}

/// Division of wide signed integers truncating toward zero.
pub fn tdiv128(a: i128, b: i128) -> (r: i128)
    requires
        b != 0,
        abs_int(a as int) < 0x40000000000000000000000000000000,
        abs_int(b as int) < 0x40000000000000000000000000000000,
    ensures
        r == spec_tdiv(a as int, b as int),
        abs_int(r as int) == abs_int(a as int) / abs_int(b as int),
        abs_int(r as int) <= abs_int(a as int),
{
    let an: u128 = if a < 0 {
        (-a) as u128
    } else {
        a as u128
    };
    let bn: u128 = if b < 0 {
        (-b) as u128
    } else {
        b as u128
    };
    let q: u128 = an / bn;
    proof {
        lemma_div_nonincreasing(an as int, bn as int);
        lemma_div_pos_is_pos(an as int, bn as int);
    }
    if (a < 0) != (b < 0) {
        -(q as i128)
    } else {
        q as i128
    }
}

} // verus!
