//! The GCJ02 <-> BD09 transform: a deterministic polar-coordinate offset
//! between the two Chinese-market datums. Both directions are total on the
//! engine's working envelope and never fail.

use vstd::prelude::*;
use crate::fixed::{
    div_trunc, lemma_abs_mul, lemma_abs_mul_le, lemma_mul_fp_le, lemma_sqrt_le, lemma_tdiv_le,
    mul_fp, spec_abs, spec_mul_fp, spec_sqrt_fp, spec_tdiv, sqrt_fp, SCALE,
};
use crate::trig::{
    atan2_fp, cos_fp, sin_fp, spec_atan2_fp, spec_cos_fp, spec_sin_fp,
};
use crate::Coordinate;

verus! {

/// `pi * 3000 / 180`, scaled by `SCALE`: the angular frequency of the BD09
/// perturbation terms.
pub const BAIDU_K_FP: i128 = 52_359_877_559_830;

/// The additive BD09 longitude offset, `0.0065` degrees.
pub const BD_LNG_OFFSET: i128 = 6_500_000_000;

/// The additive BD09 latitude offset, `0.006` degrees.
pub const BD_LAT_OFFSET: i128 = 6_000_000_000;

/// Largest component magnitude either transform can produce on a bounded
/// input.
pub const BD_RESULT_LIMIT: i128 = 2_600_000_000_000_000_000;

/// The forward polar offset on raw components: radius stretched by
/// `0.00002 * sin(lat * K)`, angle turned by `0.000003 * cos(lng * K)`,
/// evaluated at the perturbed radius and angle.
pub open spec fn spec_polar_forward(x: int, y: int) -> (int, int) {
    let v = spec_tdiv(x * x + y * y, SCALE as int);
    let z = spec_sqrt_fp(v) + spec_tdiv(spec_sin_fp(spec_mul_fp(y, BAIDU_K_FP as int)), 50_000);
    let theta = spec_atan2_fp(y, x) + spec_tdiv(
        3 * spec_cos_fp(spec_mul_fp(x, BAIDU_K_FP as int)),
        1_000_000,
    );
    (spec_mul_fp(z, spec_cos_fp(theta)), spec_mul_fp(z, spec_sin_fp(theta)))
}

/// The inverse polar offset: the same radius and angle perturbations
/// subtracted instead of added.
pub open spec fn spec_polar_inverse(x: int, y: int) -> (int, int) {
    let v = spec_tdiv(x * x + y * y, SCALE as int);
    let z = spec_sqrt_fp(v) - spec_tdiv(spec_sin_fp(spec_mul_fp(y, BAIDU_K_FP as int)), 50_000);
    let theta = spec_atan2_fp(y, x) - spec_tdiv(
        3 * spec_cos_fp(spec_mul_fp(x, BAIDU_K_FP as int)),
        1_000_000,
    );
    (spec_mul_fp(z, spec_cos_fp(theta)), spec_mul_fp(z, spec_sin_fp(theta)))
}

/// GCJ02 to BD09: apply the forward polar offset, then add the BD09
/// component offsets.
pub open spec fn spec_gcj02_to_bd09(lng: int, lat: int) -> (int, int) {
    let p = spec_polar_forward(lng, lat);
    (p.0 + BD_LNG_OFFSET as int, p.1 + BD_LAT_OFFSET as int)
}

/// BD09 to GCJ02: subtract the BD09 component offsets, then apply the
/// inverse polar offset.
pub open spec fn spec_bd09_to_gcj02(lng: int, lat: int) -> (int, int) {
    spec_polar_inverse(lng - BD_LNG_OFFSET as int, lat - BD_LAT_OFFSET as int)
}

/// The shared polar computation. `neg` selects the inverse direction.
fn polar_offset(x: i128, y: i128, neg: bool) -> (r: (i128, i128))
    requires
        spec_abs(x as int) <= 1_801_000_000_000_000_000,
        spec_abs(y as int) <= 1_801_000_000_000_000_000,
    ensures
        !neg ==> (r.0 as int, r.1 as int) == spec_polar_forward(x as int, y as int),
        neg ==> (r.0 as int, r.1 as int) == spec_polar_inverse(x as int, y as int),
        spec_abs(r.0 as int) <= BD_RESULT_LIMIT as int - BD_LNG_OFFSET as int,
        spec_abs(r.1 as int) <= BD_RESULT_LIMIT as int - BD_LNG_OFFSET as int,
{
    proof {
        lemma_abs_mul_le(x as int, x as int, 1_801_000_000_000_000_000, 1_801_000_000_000_000_000);
        lemma_abs_mul_le(y as int, y as int, 1_801_000_000_000_000_000, 1_801_000_000_000_000_000);
        lemma_abs_mul(x as int, x as int);
        lemma_abs_mul(y as int, y as int);
    }
    let sq: i128 = x * x + y * y;
    let v = div_trunc(sq, SCALE);
    proof {
        lemma_tdiv_le(sq as int, SCALE as int, 6_487_202_000_000_000_000_000_000_000_000_000_000);
    }
    assert(0 <= v <= 6_487_202_000_000_000_000_000_000);
    let z0 = sqrt_fp(v);
    proof {
        lemma_sqrt_le(v as int * SCALE as int, z0 as int, 2_547_000_000_000_000_000);
    }
    let yk = mul_fp(y, BAIDU_K_FP);
    proof {
        lemma_mul_fp_le(y as int, BAIDU_K_FP as int, 1_801_000_000_000_000_000, BAIDU_K_FP as int);
    }
    let sk = sin_fp(yk);
    let zadj = div_trunc(sk, 50_000);
    proof {
        lemma_tdiv_le(sk as int, 50_000, SCALE as int);
    }
    let z = if neg {
        z0 - zadj
    } else {
        z0 + zadj
    };
    let xk = mul_fp(x, BAIDU_K_FP);
    proof {
        lemma_mul_fp_le(x as int, BAIDU_K_FP as int, 1_801_000_000_000_000_000, BAIDU_K_FP as int);
    }
    let ck = cos_fp(xk);
    let tadj = div_trunc(3 * ck, 1_000_000);
    proof {
        lemma_tdiv_le(3 * ck as int, 1_000_000, 3 * SCALE as int);
    }
    let at = atan2_fp(y, x);
    let theta = if neg {
        at - tadj
    } else {
        at + tadj
    };
    let ct = cos_fp(theta);
    let st = sin_fp(theta);
    let out_x = mul_fp(z, ct);
    let out_y = mul_fp(z, st);
    proof {
        lemma_mul_fp_le(z as int, ct as int, 2_547_020_000_000_000_000, SCALE as int);
        lemma_mul_fp_le(z as int, st as int, 2_547_020_000_000_000_000, SCALE as int);
    }
    (out_x, out_y)
}

/// Convert a GCJ02 coordinate to BD09. Total: never fails.
pub fn gcj02_to_bd09(coord: Coordinate) -> (r: Coordinate)
    requires
        coord.bounded(),
    ensures
        (r.lng as int, r.lat as int) == spec_gcj02_to_bd09(coord.lng as int, coord.lat as int),
        spec_abs(r.lng as int) <= BD_RESULT_LIMIT as int,
        spec_abs(r.lat as int) <= BD_RESULT_LIMIT as int,
{
    let x: i128 = coord.lng as i128;
    let y: i128 = coord.lat as i128;
    let p = polar_offset(x, y, false);
    Coordinate { lng: (p.0 + BD_LNG_OFFSET) as i64, lat: (p.1 + BD_LAT_OFFSET) as i64 }
}

/// Convert a BD09 coordinate to GCJ02. Total: never fails.
pub fn bd09_to_gcj02(coord: Coordinate) -> (r: Coordinate)
    requires
        coord.bounded(),
    ensures
        (r.lng as int, r.lat as int) == spec_bd09_to_gcj02(coord.lng as int, coord.lat as int),
        spec_abs(r.lng as int) <= BD_RESULT_LIMIT as int,
        spec_abs(r.lat as int) <= BD_RESULT_LIMIT as int,
{
    let x: i128 = coord.lng as i128 - BD_LNG_OFFSET;
    let y: i128 = coord.lat as i128 - BD_LAT_OFFSET;
    let p = polar_offset(x, y, true);
    Coordinate { lng: p.0 as i64, lat: p.1 as i64 }
}

} // verus!
