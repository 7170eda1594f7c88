//! Fixed-point sine, cosine and two-argument arctangent.
//!
//! Arguments and results are scaled by `fixed::SCALE`. Each function is
//! specified exactly by a spec-level mirror of its computation: argument
//! reduction into `[-pi/2, pi/2]`, then a truncated power series.

use vstd::prelude::*;
use crate::fixed::{
    div_fp, div_trunc, lemma_div_fp_le, lemma_mul_fp_le, lemma_sqrt_ge, lemma_tdiv_le, mul_fp,
    spec_abs, spec_div_fp, spec_mul_fp, spec_sqrt_fp, spec_tdiv, sqrt_fp, SCALE,
};
use vstd::arithmetic::div_mod::{
    lemma_div_by_multiple, lemma_div_denominator, lemma_div_multiples_vanish,
};

verus! {

/// Pi, scaled by `SCALE`.
pub const PI_FP: i128 = 3_141_592_653_590;

/// Two pi, scaled by `SCALE`.
pub const TWO_PI_FP: i128 = 6_283_185_307_180;

/// Half pi, scaled by `SCALE`.
pub const HALF_PI_FP: i128 = 1_570_796_326_795;

/// Largest angle magnitude `sin_fp` accepts.
pub const SIN_ARG_LIMIT: i128 = 1_000_000_000_000_000_000_000;

/// Largest angle magnitude `cos_fp` accepts; adding half pi must stay within
/// `SIN_ARG_LIMIT`.
pub const COS_ARG_LIMIT: i128 = 999_000_000_000_000_000_000;

/// Reduce an angle to the equivalent point of `[-pi/2, pi/2]` on which the
/// sine series is evaluated: congruent modulo two pi up to sign, then folded
/// across the vertical axis.
pub open spec fn spec_fold(x: int) -> int {
    let m = spec_abs(x) % (TWO_PI_FP as int);
    let r1 = if m > PI_FP as int {
        m - TWO_PI_FP as int
    } else {
        m
    };
    let r2 = if x < 0 {
        -r1
    } else {
        r1
    };
    if r2 > HALF_PI_FP as int {
        PI_FP as int - r2
    } else if r2 < -(HALF_PI_FP as int) {
        -(PI_FP as int) - r2
    } else {
        r2
    }
}

/// The truncated Taylor series of sine on the folded argument.
pub open spec fn spec_sin_poly(r: int) -> int {
    let x2 = spec_mul_fp(r, r);
    let c6 = SCALE as int - spec_tdiv(x2, 210);
    let c5 = SCALE as int - spec_tdiv(spec_mul_fp(x2, c6), 156);
    let c4 = SCALE as int - spec_tdiv(spec_mul_fp(x2, c5), 110);
    let c3 = SCALE as int - spec_tdiv(spec_mul_fp(x2, c4), 72);
    let c2 = SCALE as int - spec_tdiv(spec_mul_fp(x2, c3), 42);
    let c1 = SCALE as int - spec_tdiv(spec_mul_fp(x2, c2), 20);
    let c0 = SCALE as int - spec_tdiv(spec_mul_fp(x2, c1), 6);
    spec_mul_fp(r, c0)
}

/// Clamp to the unit interval `[-SCALE, SCALE]`.
pub open spec fn spec_clamp_unit(s: int) -> int {
    if s > SCALE as int {
        SCALE as int
    } else if s < -(SCALE as int) {
        -(SCALE as int)
    } else {
        s
    }
}

pub open spec fn spec_sin_fp(x: int) -> int {
    spec_clamp_unit(spec_sin_poly(spec_fold(x)))
}

pub open spec fn spec_cos_fp(x: int) -> int {
    spec_sin_fp(x + HALF_PI_FP as int)
}

/// One half-angle step for arctangent: `t / (1 + sqrt(1 + t^2))`.
pub open spec fn spec_atan_half(t: int) -> int {
    spec_div_fp(t, SCALE as int + spec_sqrt_fp(SCALE as int + spec_mul_fp(t, t)))
}

/// The truncated Taylor series of arctangent on a small argument.
pub open spec fn spec_atan_taylor(u: int) -> int {
    let x2 = spec_mul_fp(u, u);
    let e5 = 90_909_090_909 - spec_mul_fp(x2, 76_923_076_923);
    let e4 = 111_111_111_111 - spec_mul_fp(x2, e5);
    let e3 = 142_857_142_857 - spec_mul_fp(x2, e4);
    let e2 = 200_000_000_000 - spec_mul_fp(x2, e3);
    let e1 = 333_333_333_333 - spec_mul_fp(x2, e2);
    let p = SCALE as int - spec_mul_fp(x2, e1);
    spec_mul_fp(u, p)
}

/// Arctangent of `t` in `[0, 1]`: two half-angle steps, then the series.
pub open spec fn spec_atan_core(t: int) -> int {
    4 * spec_atan_taylor(spec_atan_half(spec_atan_half(t)))
}

/// The two-argument arctangent, with the quadrant conventions of the usual
/// floating-point `atan2` (and `atan2(0, 0) == 0`).
pub open spec fn spec_atan2_fp(y: int, x: int) -> int {
    if x == 0 && y == 0 {
        0
    } else {
        let ax = spec_abs(x);
        let ay = spec_abs(y);
        let base = if ay <= ax {
            spec_atan_core(spec_div_fp(ay, ax))
        } else {
            HALF_PI_FP as int - spec_atan_core(spec_div_fp(ax, ay))
        };
        if x >= 0 {
            if y >= 0 {
                base
            } else {
                -base
            }
        } else {
            if y >= 0 {
                PI_FP as int - base
            } else {
                base - PI_FP as int
            }
        }
    }
}

/// Fixed-point sine.
pub fn sin_fp(x: i128) -> (r: i128)
    requires
        spec_abs(x as int) <= SIN_ARG_LIMIT as int,
    ensures
        r as int == spec_sin_fp(x as int),
        spec_abs(r as int) <= SCALE as int,
{
    let mag: u128 = if x < 0 {
        (-x) as u128
    } else {
        x as u128
    };
    let m: u128 = mag % (TWO_PI_FP as u128);
    let r1: i128 = if m > PI_FP as u128 {
        (m as i128) - TWO_PI_FP
    } else {
        m as i128
    };
    let r2: i128 = if x < 0 {
        -r1
    } else {
        r1
    };
    let r: i128 = if r2 > HALF_PI_FP {
        PI_FP - r2
    } else if r2 < -HALF_PI_FP {
        -PI_FP - r2
    } else {
        r2
    };
    assert(r as int == spec_fold(x as int));
    assert(spec_abs(r as int) <= HALF_PI_FP as int);
    let x2 = mul_fp(r, r);
    proof {
        lemma_mul_fp_le(r as int, r as int, HALF_PI_FP as int, HALF_PI_FP as int);
    }
    assert(0 <= x2 <= 2_467_401_100_272);
    let t6 = div_trunc(x2, 210);
    proof {
        lemma_tdiv_le(x2 as int, 210, 2_467_401_100_272);
    }
    let c6 = SCALE - t6;
    let m5 = mul_fp(x2, c6);
    proof {
        lemma_mul_fp_le(x2 as int, c6 as int, 2_467_401_100_272, SCALE as int);
    }
    let t5 = div_trunc(m5, 156);
    proof {
        lemma_tdiv_le(m5 as int, 156, 2_467_401_100_272);
    }
    let c5 = SCALE - t5;
    let m4 = mul_fp(x2, c5);
    proof {
        lemma_mul_fp_le(x2 as int, c5 as int, 2_467_401_100_272, SCALE as int);
    }
    let t4 = div_trunc(m4, 110);
    proof {
        lemma_tdiv_le(m4 as int, 110, 2_467_401_100_272);
    }
    let c4 = SCALE - t4;
    let m3 = mul_fp(x2, c4);
    proof {
        lemma_mul_fp_le(x2 as int, c4 as int, 2_467_401_100_272, SCALE as int);
    }
    let t3 = div_trunc(m3, 72);
    proof {
        lemma_tdiv_le(m3 as int, 72, 2_467_401_100_272);
    }
    let c3 = SCALE - t3;
    let m2 = mul_fp(x2, c3);
    proof {
        lemma_mul_fp_le(x2 as int, c3 as int, 2_467_401_100_272, SCALE as int);
    }
    let t2 = div_trunc(m2, 42);
    proof {
        lemma_tdiv_le(m2 as int, 42, 2_467_401_100_272);
    }
    let c2 = SCALE - t2;
    let m1 = mul_fp(x2, c2);
    proof {
        lemma_mul_fp_le(x2 as int, c2 as int, 2_467_401_100_272, SCALE as int);
    }
    let t1 = div_trunc(m1, 20);
    proof {
        lemma_tdiv_le(m1 as int, 20, 2_467_401_100_272);
    }
    let c1 = SCALE - t1;
    let m0 = mul_fp(x2, c1);
    proof {
        lemma_mul_fp_le(x2 as int, c1 as int, 2_467_401_100_272, SCALE as int);
    }
    let t0 = div_trunc(m0, 6);
    proof {
        lemma_tdiv_le(m0 as int, 6, 2_467_401_100_272);
    }
    let c0 = SCALE - t0;
    let s = mul_fp(r, c0);
    proof {
        lemma_mul_fp_le(r as int, c0 as int, HALF_PI_FP as int, SCALE as int);
    }
    if s > SCALE {
        SCALE
    } else if s < -SCALE {
        -SCALE
    } else {
        s
    }
}

/// Fixed-point cosine, as the sine of the angle shifted by half pi.
pub fn cos_fp(x: i128) -> (r: i128)
    requires
        spec_abs(x as int) <= COS_ARG_LIMIT as int,
    ensures
        r as int == spec_cos_fp(x as int),
        spec_abs(r as int) <= SCALE as int,
{
    sin_fp(x + HALF_PI_FP)
}

/// One arctangent half-angle step.
fn atan_half(t: i128) -> (h: i128)
    requires
        0 <= t <= SCALE,
    ensures
        h as int == spec_atan_half(t as int),
        0 <= h,
        2 * h <= t,
{
    let t2 = mul_fp(t, t);
    proof {
        lemma_mul_fp_le(t as int, t as int, SCALE as int, SCALE as int);
    }
    let s = sqrt_fp(SCALE + t2);
    proof {
        lemma_sqrt_ge((SCALE as int + t2 as int) * SCALE as int, s as int, SCALE as int);
    }
    let den = SCALE + s;
    let h = div_fp(t, den);
    proof {
        lemma_div_fp_le(t as int, den as int, t as int, 2 * SCALE as int);
        lemma_div_denominator(t as int * SCALE as int, SCALE as int, 2);
        lemma_div_by_multiple(t as int, SCALE as int);
        assert((t as int * SCALE as int) / (SCALE as int * 2) == (t as int) / 2);
    }
    h
}

/// Arctangent of `t` in `[0, SCALE]`.
fn atan_core(t: i128) -> (r: i128)
    requires
        0 <= t <= SCALE,
    ensures
        r as int == spec_atan_core(t as int),
        0 <= r <= 1_000_000_000_000,
{
    let u1 = atan_half(t);
    let u2 = atan_half(u1);
    let x2 = mul_fp(u2, u2);
    proof {
        lemma_mul_fp_le(u2 as int, u2 as int, 250_000_000_000, 250_000_000_000);
    }
    assert(0 <= x2 <= 62_500_000_000);
    let n5 = mul_fp(x2, 76_923_076_923);
    proof {
        lemma_mul_fp_le(x2 as int, 76_923_076_923, 62_500_000_000, 76_923_076_923);
    }
    let e5 = 90_909_090_909 - n5;
    let n4 = mul_fp(x2, e5);
    proof {
        lemma_mul_fp_le(x2 as int, e5 as int, 62_500_000_000, 90_909_090_909);
    }
    let e4 = 111_111_111_111 - n4;
    let n3 = mul_fp(x2, e4);
    proof {
        lemma_mul_fp_le(x2 as int, e4 as int, 62_500_000_000, 111_111_111_111);
    }
    let e3 = 142_857_142_857 - n3;
    let n2 = mul_fp(x2, e3);
    proof {
        lemma_mul_fp_le(x2 as int, e3 as int, 62_500_000_000, 142_857_142_857);
    }
    let e2 = 200_000_000_000 - n2;
    let n1 = mul_fp(x2, e2);
    proof {
        lemma_mul_fp_le(x2 as int, e2 as int, 62_500_000_000, 200_000_000_000);
    }
    let e1 = 333_333_333_333 - n1;
    let n0 = mul_fp(x2, e1);
    proof {
        lemma_mul_fp_le(x2 as int, e1 as int, 62_500_000_000, 333_333_333_333);
    }
    let p = SCALE - n0;
    let r0 = mul_fp(u2, p);
    proof {
        lemma_mul_fp_le(u2 as int, p as int, 250_000_000_000, SCALE as int);
    }
    4 * r0
}

/// Fixed-point two-argument arctangent.
pub fn atan2_fp(y: i128, x: i128) -> (r: i128)
    requires
        spec_abs(y as int) <= 2_000_000_000_000_000_000,
        spec_abs(x as int) <= 2_000_000_000_000_000_000,
    ensures
        r as int == spec_atan2_fp(y as int, x as int),
        spec_abs(r as int) <= PI_FP as int,
{
    if x == 0 && y == 0 {
        return 0;
    }
    let ax: i128 = if x < 0 {
        -x
    } else {
        x
    };
    let ay: i128 = if y < 0 {
        -y
    } else {
        y
    };
    let base: i128 = if ay <= ax {
        let t = div_fp(ay, ax);
        proof {
            lemma_div_fp_le(ay as int, ax as int, ay as int, ax as int);
            lemma_div_multiples_vanish(SCALE as int, ax as int);
            vstd::arithmetic::div_mod::lemma_div_is_ordered(
                ay as int * SCALE as int,
                ax as int * SCALE as int,
                ax as int,
            );
        }
        assert(0 <= t <= SCALE);
        atan_core(t)
    } else {
        let t = div_fp(ax, ay);
        proof {
            lemma_div_fp_le(ax as int, ay as int, ax as int, ay as int);
            lemma_div_multiples_vanish(SCALE as int, ay as int);
            vstd::arithmetic::div_mod::lemma_div_is_ordered(
                ax as int * SCALE as int,
                ay as int * SCALE as int,
                ay as int,
            );
        }
        assert(0 <= t <= SCALE);
        HALF_PI_FP - atan_core(t)
    };
    if x >= 0 {
        if y >= 0 {
            base
        } else {
            -base
        }
    } else {
        if y >= 0 {
            PI_FP - base
        } else {
            base - PI_FP
        }
    }
}

} // verus!
