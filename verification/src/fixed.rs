//! Fixed-point arithmetic on scaled integers.
//!
//! A value represents a real quantity times `SCALE` (one unit is `10^-12`),
//! held in an `i128` and rounded toward zero, the rounding that the
//! transforms in this crate are specified against.

use vstd::prelude::*;
use vstd::arithmetic::div_mod::{
    lemma_div_is_ordered, lemma_div_is_ordered_by_denominator, lemma_div_pos_is_pos,
};

verus! {

/// Number of fixed-point units in one whole unit (here: one degree).
pub const SCALE: i128 = 1_000_000_000_000;

/// Largest magnitude either factor of `mul_fp` may have; the product of two
/// such factors times `SCALE` still fits in an `i128`.
pub const MUL_ARG_LIMIT: i128 = 6_500_000_000_000_000_000;

/// Largest numerator magnitude `div_fp` may take; the numerator times
/// `SCALE` still fits in an `i128`.
pub const DIV_NUM_LIMIT: i128 = 7_000_000_000_000_000_000;

/// Largest radicand `sqrt_fp` may take; the radicand times `SCALE` still
/// fits in a `u128`.
pub const SQRT_ARG_LIMIT: i128 = 20_000_000_000_000_000_000_000_000;

pub open spec fn spec_abs(a: int) -> int {
    if a < 0 {
        -a
    } else {
        a
    }
}

/// Division truncated toward zero (the `/` of Rust's built-in integers),
/// for positive divisors.
pub open spec fn spec_tdiv(a: int, b: int) -> int {
    if a >= 0 {
        a / b
    } else {
        -((-a) / b)
    }
}

/// Fixed-point product: `a * b / SCALE`, truncated toward zero.
pub open spec fn spec_mul_fp(a: int, b: int) -> int {
    spec_tdiv(a * b, SCALE as int)
}

/// Fixed-point quotient: `a * SCALE / b`, truncated toward zero.
pub open spec fn spec_div_fp(a: int, b: int) -> int {
    spec_tdiv(a * SCALE, b)
}

/// `r` is the integer square root of `n`.
pub open spec fn is_isqrt(n: int, r: int) -> bool {
    0 <= r && r * r <= n && n < (r + 1) * (r + 1)
}

pub open spec fn spec_isqrt(n: int) -> int {
    choose|r: int| is_isqrt(n, r)
}

/// Fixed-point square root of a non-negative value: `isqrt(v * SCALE)`.
pub open spec fn spec_sqrt_fp(v: int) -> int {
    spec_isqrt(v * SCALE)
}

/// The magnitude of a product is the product of the magnitudes, and the sign
/// of a product follows the signs of its factors.
pub proof fn lemma_abs_mul(a: int, b: int)
    by (nonlinear_arith)
    ensures
        spec_abs(a * b) == spec_abs(a) * spec_abs(b),
        ((a < 0) != (b < 0)) ==> a * b <= 0,
        ((a < 0) == (b < 0)) ==> a * b >= 0,
{
}

/// Bounds on the factors bound the product.
pub proof fn lemma_abs_mul_le(a: int, b: int, aa: int, bb: int)
    by (nonlinear_arith)
    requires
        spec_abs(a) <= aa,
        spec_abs(b) <= bb,
    ensures
        spec_abs(a * b) <= aa * bb,
{
}

/// A bound on the numerator bounds a truncated quotient.
pub proof fn lemma_tdiv_le(a: int, b: int, aa: int)
    requires
        1 <= b,
        spec_abs(a) <= aa,
    ensures
        spec_abs(spec_tdiv(a, b)) <= aa / b,
        a >= 0 ==> spec_tdiv(a, b) >= 0,
        a <= 0 ==> spec_tdiv(a, b) <= 0,
{
    if a >= 0 {
        lemma_div_pos_is_pos(a, b);
        lemma_div_is_ordered(a, aa, b);
    } else {
        lemma_div_pos_is_pos(-a, b);
        lemma_div_is_ordered(-a, aa, b);
    }
}

/// Bounds on the factors bound a fixed-point product.
pub proof fn lemma_mul_fp_le(a: int, b: int, aa: int, bb: int)
    requires
        spec_abs(a) <= aa,
        spec_abs(b) <= bb,
    ensures
        spec_abs(spec_mul_fp(a, b)) <= (aa * bb) / (SCALE as int),
        a >= 0 && b >= 0 ==> spec_mul_fp(a, b) >= 0,
        ((a < 0) == (b < 0)) ==> spec_mul_fp(a, b) >= 0,
{
    lemma_abs_mul_le(a, b, aa, bb);
    lemma_abs_mul(a, b);
    lemma_tdiv_le(a * b, SCALE as int, aa * bb);
}

/// A bound on the numerator and a floor under the divisor bound a
/// fixed-point quotient.
pub proof fn lemma_div_fp_le(a: int, b: int, aa: int, bmin: int)
    requires
        spec_abs(a) <= aa,
        1 <= bmin <= b,
    ensures
        spec_abs(spec_div_fp(a, b)) <= (aa * SCALE) / bmin,
        a >= 0 ==> spec_div_fp(a, b) >= 0,
{
    assert(spec_abs(a * SCALE) <= aa * SCALE);
    lemma_tdiv_le(a * SCALE, b, aa * SCALE);
    if a * SCALE >= 0 {
        lemma_div_is_ordered_by_denominator(a * SCALE, bmin, b);
        lemma_div_is_ordered(a * SCALE, aa * SCALE, bmin);
    } else {
        lemma_div_is_ordered_by_denominator(-(a * SCALE), bmin, b);
        lemma_div_is_ordered(-(a * SCALE), aa * SCALE, bmin);
    }
}

/// An integer square root is no larger than any `b` whose square covers the
/// radicand.
pub proof fn lemma_sqrt_le(n: int, r: int, b: int)
    by (nonlinear_arith)
    requires
        is_isqrt(n, r),
        0 <= b,
        n <= b * b,
    ensures
        r <= b,
{
}

/// An integer square root is at least any `b` whose square stays under the
/// radicand.
pub proof fn lemma_sqrt_ge(n: int, r: int, b: int)
    by (nonlinear_arith)
    requires
        is_isqrt(n, r),
        0 <= b,
        b * b <= n,
    ensures
        r >= b,
{
}

/// The integer square root is unique, so any witness equals `spec_isqrt`.
pub proof fn lemma_isqrt_unique(n: int, r: int)
    requires
        is_isqrt(n, r),
    ensures
        spec_isqrt(n) == r,
{
    assert(is_isqrt(n, spec_isqrt(n))) by {
        assert(exists|x: int| is_isqrt(n, x)) by {
            assert(is_isqrt(n, r));
        }
    }
    let c = spec_isqrt(n);
    assert(c == r) by (nonlinear_arith)
        requires
            is_isqrt(n, c),
            is_isqrt(n, r),
    ;
}

/// Fixed-point multiplication, truncated toward zero.
pub fn mul_fp(a: i128, b: i128) -> (r: i128)
    requires
        spec_abs(a as int) <= MUL_ARG_LIMIT as int,
        spec_abs(b as int) <= MUL_ARG_LIMIT as int,
    ensures
        r as int == spec_mul_fp(a as int, b as int),
{
    let neg: bool = (a < 0) != (b < 0);
    let ma: u128 = if a < 0 {
        (-a) as u128
    } else {
        a as u128
    };
    let mb: u128 = if b < 0 {
        (-b) as u128
    } else {
        b as u128
    };
    proof {
        lemma_abs_mul(a as int, b as int);
        lemma_abs_mul_le(a as int, b as int, MUL_ARG_LIMIT as int, MUL_ARG_LIMIT as int);
    }
    let p: u128 = ma * mb;
    let q: u128 = p / (SCALE as u128);
    proof {
        lemma_div_pos_is_pos(p as int, SCALE as int);
        lemma_div_is_ordered(p as int, MUL_ARG_LIMIT as int * MUL_ARG_LIMIT as int, SCALE as int);
    }
    if neg {
        -(q as i128)
    } else {
        q as i128
    }
}

/// Fixed-point division, truncated toward zero, for positive divisors.
pub fn div_fp(a: i128, b: i128) -> (r: i128)
    requires
        spec_abs(a as int) <= DIV_NUM_LIMIT as int,
        1 <= b,
    ensures
        r as int == spec_div_fp(a as int, b as int),
{
    let ma: u128 = if a < 0 {
        (-a) as u128
    } else {
        a as u128
    };
    proof {
        assert(ma <= DIV_NUM_LIMIT as u128);
        assert(ma as int * SCALE as int <= DIV_NUM_LIMIT as int * SCALE as int)
            by (nonlinear_arith)
            requires
                0 <= ma as int <= DIV_NUM_LIMIT as int,
        ;
    }
    let p: u128 = ma * (SCALE as u128);
    let q: u128 = p / (b as u128);
    proof {
        lemma_div_pos_is_pos(p as int, b as int);
        lemma_div_is_ordered_by_denominator(p as int, 1, b as int);
        vstd::arithmetic::div_mod::lemma_div_basics(p as int);
    }
    if a < 0 {
        -(q as i128)
    } else {
        q as i128
    }
}

/// Plain integer division, truncated toward zero, for positive divisors.
pub fn div_trunc(a: i128, b: i128) -> (r: i128)
    requires
        a != i128::MIN,
        1 <= b,
    ensures
        r as int == spec_tdiv(a as int, b as int),
{
    let ma: u128 = if a < 0 {
        (-a) as u128
    } else {
        a as u128
    };
    let q: u128 = ma / (b as u128);
    proof {
        lemma_div_pos_is_pos(ma as int, b as int);
        lemma_div_is_ordered_by_denominator(ma as int, 1, b as int);
        vstd::arithmetic::div_mod::lemma_div_basics(ma as int);
    }
    if a < 0 {
        -(q as i128)
    } else {
        q as i128
    }
}

/// Integer square root by bisection.
pub fn isqrt_u(n: u128) -> (r: u128)
    ensures
        is_isqrt(n as int, r as int),
{
    let mut lo: u128 = 0;
    let mut hi: u128 = 0x1_0000_0000_0000_0000;
    proof {
        assert((hi as int) * (hi as int) > n as int) by (nonlinear_arith)
            requires
                hi == 0x1_0000_0000_0000_0000,
                n <= u128::MAX,
        ;
    }
    while hi - lo > 1
        invariant
            lo < hi,
            hi <= 0x1_0000_0000_0000_0000,
            (lo as int) * (lo as int) <= n as int,
            (n as int) < (hi as int) * (hi as int),
        decreases hi - lo,
    {
        let mid: u128 = lo + (hi - lo) / 2;
        proof {
            assert((mid as int) * (mid as int) <= u128::MAX as int) by (nonlinear_arith)
                requires
                    mid <= 0xffff_ffff_ffff_ffff,
            ;
        }
        let sq: u128 = mid * mid;
        if sq <= n {
            lo = mid;
        } else {
            hi = mid;
        }
    }
    lo
}

/// Fixed-point square root of a non-negative value.
pub fn sqrt_fp(v: i128) -> (r: i128)
    requires
        0 <= v <= SQRT_ARG_LIMIT,
    ensures
        r as int == spec_sqrt_fp(v as int),
        is_isqrt(v as int * SCALE as int, r as int),
        0 <= r <= 4_500_000_000_000_000_000,
{
    proof {
        assert(v as int * SCALE as int <= 4_500_000_000_000_000_000int
            * 4_500_000_000_000_000_000int) by (nonlinear_arith)
            requires
                0 <= v as int <= SQRT_ARG_LIMIT as int,
        ;
    }
    let n: u128 = (v as u128) * (SCALE as u128);
    let r = isqrt_u(n);
    proof {
        lemma_isqrt_unique(n as int, r as int);
        lemma_sqrt_le(n as int, r as int, 4_500_000_000_000_000_000);
    }
    r as i128
}

} // verus!
