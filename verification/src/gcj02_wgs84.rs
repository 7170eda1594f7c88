//! The WGS84 <-> GCJ02 transform: an empirical perturbation over the
//! Krasovsky 1940 ellipsoid, valid only inside a bounding box approximating
//! China's territory. The inverse has no closed form and is recovered by a
//! capped fixed-point iteration.

use vstd::prelude::*;
use crate::fixed::{
    div_fp, div_trunc, lemma_div_fp_le, lemma_mul_fp_le, lemma_sqrt_ge, lemma_sqrt_le,
    lemma_tdiv_le, mul_fp, spec_abs, spec_div_fp, spec_mul_fp, spec_sqrt_fp, spec_tdiv, sqrt_fp,
    SCALE,
};
use crate::trig::{cos_fp, sin_fp, spec_cos_fp, spec_sin_fp, PI_FP};
use crate::{result_models, ConvertError, Coordinate};
use vstd::arithmetic::div_mod::lemma_div_is_ordered;

verus! {

/// The China bounding box, in units of `10^-12` degree.
pub const CHINA_LNG_MIN: i64 = 72_004_000_000_000;

pub const CHINA_LNG_MAX: i64 = 137_834_700_000_000;

pub const CHINA_LAT_MIN: i64 = 829_300_000_000;

pub const CHINA_LAT_MAX: i64 = 55_827_100_000_000;

/// Semi-major axis of the Krasovsky 1940 ellipsoid (metres), scaled.
pub const KRASOVSKY_A_FP: i128 = 6_378_245_000_000_000_000;

/// First eccentricity squared of the Krasovsky 1940 ellipsoid, scaled.
pub const KRASOVSKY_EE_FP: i128 = 6_693_421_623;

/// 180 degrees, scaled.
pub const DEGREE_180_FP: i128 = 180_000_000_000_000;

/// The perturbation polynomials are evaluated at `lng - 105`, `lat - 35`.
pub const LNG_CENTER_FP: i64 = 105_000_000_000_000;

pub const LAT_CENTER_FP: i64 = 35_000_000_000_000;

/// Saturating floor for the two curvature divisors. For any latitude in the
/// box both divisors are near `2 * 10^19`, well above the floor, so the
/// guard only discharges the engine's division-by-zero obligation.
pub const DEN_FLOOR: i128 = 10_000_000_000_000_000_000;

/// Convergence threshold of the inverse iteration: `10^-6` degree.
pub const CONVERGENCE_EPS: i64 = 1_000_000;

/// Cap on the inverse iteration; real inputs converge within a handful of
/// rounds.
pub const MAX_ITERATIONS: u32 = 16;

/// Inside the bounding box approximating China's territory.
pub open spec fn spec_in_china(lng: int, lat: int) -> bool {
    CHINA_LNG_MIN as int <= lng <= CHINA_LNG_MAX as int && CHINA_LAT_MIN as int <= lat
        <= CHINA_LAT_MAX as int
}

/// The polynomial part of the latitude perturbation.
pub open spec fn spec_lat_base(x: int, y: int) -> int {
    -100_000_000_000_000 + 2 * x + 3 * y + spec_tdiv(spec_mul_fp(y, y), 5) + spec_tdiv(
        spec_mul_fp(x, y),
        10,
    ) + spec_tdiv(spec_sqrt_fp(spec_abs(x)), 5)
}

/// The polynomial part of the longitude perturbation.
pub open spec fn spec_lon_base(x: int, y: int) -> int {
    300_000_000_000_000 + x + 2 * y + spec_tdiv(spec_mul_fp(x, x), 10) + spec_tdiv(
        spec_mul_fp(x, y),
        10,
    ) + spec_tdiv(spec_sqrt_fp(spec_abs(x)), 10)
}

/// The high-frequency harmonic shared by both perturbations.
pub open spec fn spec_harmonic_shared(x: int) -> int {
    spec_tdiv(
        (20 * spec_sin_fp(6 * spec_mul_fp(x, PI_FP as int)) + 20 * spec_sin_fp(
            2 * spec_mul_fp(x, PI_FP as int),
        )) * 2,
        3,
    )
}

/// The low-frequency harmonics of the latitude perturbation.
pub open spec fn spec_lat_tail(y: int) -> int {
    spec_tdiv(
        (20 * spec_sin_fp(spec_mul_fp(y, PI_FP as int)) + 40 * spec_sin_fp(
            spec_mul_fp(spec_tdiv(y, 3), PI_FP as int),
        )) * 2,
        3,
    ) + spec_tdiv(
        (160 * spec_sin_fp(spec_mul_fp(spec_tdiv(y, 12), PI_FP as int)) + 320 * spec_sin_fp(
            spec_tdiv(spec_mul_fp(y, PI_FP as int), 30),
        )) * 2,
        3,
    )
}

/// The low-frequency harmonics of the longitude perturbation.
pub open spec fn spec_lon_tail(x: int) -> int {
    spec_tdiv(
        (20 * spec_sin_fp(spec_mul_fp(x, PI_FP as int)) + 40 * spec_sin_fp(
            spec_mul_fp(spec_tdiv(x, 3), PI_FP as int),
        )) * 2,
        3,
    ) + spec_tdiv(
        (150 * spec_sin_fp(spec_mul_fp(spec_tdiv(x, 12), PI_FP as int)) + 300 * spec_sin_fp(
            spec_mul_fp(spec_tdiv(x, 30), PI_FP as int),
        )) * 2,
        3,
    )
}

/// The latitude perturbation polynomial plus its harmonic series.
pub open spec fn spec_transform_lat(x: int, y: int) -> int {
    spec_lat_base(x, y) + spec_harmonic_shared(x) + spec_lat_tail(y)
}

/// The longitude perturbation polynomial plus its harmonic series.
pub open spec fn spec_transform_lon(x: int, y: int) -> int {
    spec_lon_base(x, y) + spec_harmonic_shared(x) + spec_lon_tail(x)
}

/// The degree deltas that carry a WGS84 point onto GCJ02: the perturbation
/// polynomials converted through the ellipsoid's curvature radii.
#[verifier::opaque]
pub open spec fn spec_delta(lng: int, lat: int) -> (int, int) {
    let x = lng - LNG_CENTER_FP as int;
    let y = lat - LAT_CENTER_FP as int;
    let dlon0 = spec_transform_lon(x, y);
    let dlat0 = spec_transform_lat(x, y);
    let radlat = spec_mul_fp(spec_tdiv(lat, 180), PI_FP as int);
    let ms = spec_sin_fp(radlat);
    let magic = SCALE as int - spec_mul_fp(KRASOVSKY_EE_FP as int, spec_mul_fp(ms, ms));
    let sqrtmagic = spec_sqrt_fp(magic);
    let den_lng0 = spec_mul_fp(
        spec_mul_fp(spec_div_fp(KRASOVSKY_A_FP as int, sqrtmagic), spec_cos_fp(radlat)),
        PI_FP as int,
    );
    let den_lng = if den_lng0 < DEN_FLOOR as int {
        DEN_FLOOR as int
    } else {
        den_lng0
    };
    let den_lat0 = spec_mul_fp(
        spec_div_fp(
            spec_mul_fp(KRASOVSKY_A_FP as int, SCALE as int - KRASOVSKY_EE_FP as int),
            spec_mul_fp(magic, sqrtmagic),
        ),
        PI_FP as int,
    );
    let den_lat = if den_lat0 < DEN_FLOOR as int {
        DEN_FLOOR as int
    } else {
        den_lat0
    };
    (
        spec_div_fp(spec_mul_fp(dlon0, DEGREE_180_FP as int), den_lng),
        spec_div_fp(spec_mul_fp(dlat0, DEGREE_180_FP as int), den_lat),
    )
}

/// WGS84 to GCJ02: gate on the box, then add the deltas.
pub open spec fn spec_wgs84_to_gcj02(lng: int, lat: int) -> Result<(int, int), ConvertError> {
    if !spec_in_china(lng, lat) {
        Result::Err(ConvertError::OutOfChina)
    } else {
        let d = spec_delta(lng, lat);
        Result::Ok((lng + d.0, lat + d.1))
    }
}

/// One round of the inverse iteration: forward-transform the candidate,
/// stop when the residual against the target is below the threshold, else
/// correct the candidate by the residual and recurse on the remaining fuel.
pub open spec fn spec_gcj_iter(lng: int, lat: int, wl: int, wt: int, fuel: nat) -> Result<
    (int, int),
    ConvertError,
>
    decreases fuel,
{
    if fuel == 0 {
        Result::Err(ConvertError::ConvergenceFailed)
    } else {
        match spec_wgs84_to_gcj02(wl, wt) {
            Result::Err(e) => Result::Err(e),
            Result::Ok(g) => {
                let dx = g.0 - lng;
                let dy = g.1 - lat;
                if spec_abs(dx) < CONVERGENCE_EPS as int && spec_abs(dy) < CONVERGENCE_EPS as int {
                    Result::Ok((wl, wt))
                } else {
                    spec_gcj_iter(lng, lat, wl - dx, wt - dy, (fuel - 1) as nat)
                }
            },
        }
    }
}

/// GCJ02 to WGS84: gate on the box, then iterate from the input itself.
pub open spec fn spec_gcj02_to_wgs84(lng: int, lat: int) -> Result<(int, int), ConvertError> {
    if !spec_in_china(lng, lat) {
        Result::Err(ConvertError::OutOfChina)
    } else {
        spec_gcj_iter(lng, lat, lng, lat, MAX_ITERATIONS as nat)
    }
}

/// The box gate shared by both directions.
pub fn is_in_china_bbox(lon: i64, lat: i64) -> (r: bool)
    ensures
        r == spec_in_china(lon as int, lat as int),
{
    lon >= CHINA_LNG_MIN && lon <= CHINA_LNG_MAX && lat >= CHINA_LAT_MIN && lat <= CHINA_LAT_MAX
}

/// The polynomial part of the latitude perturbation.
fn lat_base(x: i128, y: i128) -> (r: i128)
    requires
        spec_abs(x as int) <= 33_000_000_000_000,
        spec_abs(y as int) <= 35_000_000_000_000,
    ensures
        r as int == spec_lat_base(x as int, y as int),
        spec_abs(r as int) <= 650_000_000_000_000,
{
    let yy = mul_fp(y, y);
    let xy = mul_fp(x, y);
    proof {
        lemma_mul_fp_le(y as int, y as int, 35_000_000_000_000, 35_000_000_000_000);
        lemma_mul_fp_le(x as int, y as int, 33_000_000_000_000, 35_000_000_000_000);
    }
    let ax: i128 = if x < 0 {
        -x
    } else {
        x
    };
    let sx = sqrt_fp(ax);
    proof {
        lemma_sqrt_le(ax as int * SCALE as int, sx as int, 5_745_000_000_000);
        lemma_tdiv_le(yy as int, 5, 1_225_000_000_000_000);
        lemma_tdiv_le(xy as int, 10, 1_155_000_000_000_000);
        lemma_tdiv_le(sx as int, 5, 5_745_000_000_000);
    }
    -100_000_000_000_000 + 2 * x + 3 * y + div_trunc(yy, 5) + div_trunc(xy, 10) + div_trunc(sx, 5)
}

/// The polynomial part of the longitude perturbation.
fn lon_base(x: i128, y: i128) -> (r: i128)
    requires
        spec_abs(x as int) <= 33_000_000_000_000,
        spec_abs(y as int) <= 35_000_000_000_000,
    ensures
        r as int == spec_lon_base(x as int, y as int),
        spec_abs(r as int) <= 650_000_000_000_000,
{
    let xx = mul_fp(x, x);
    let xy = mul_fp(x, y);
    proof {
        lemma_mul_fp_le(x as int, x as int, 33_000_000_000_000, 33_000_000_000_000);
        lemma_mul_fp_le(x as int, y as int, 33_000_000_000_000, 35_000_000_000_000);
    }
    let ax: i128 = if x < 0 {
        -x
    } else {
        x
    };
    let sx = sqrt_fp(ax);
    proof {
        lemma_sqrt_le(ax as int * SCALE as int, sx as int, 5_745_000_000_000);
        lemma_tdiv_le(xx as int, 10, 1_089_000_000_000_000);
        lemma_tdiv_le(xy as int, 10, 1_155_000_000_000_000);
        lemma_tdiv_le(sx as int, 10, 5_745_000_000_000);
    }
    300_000_000_000_000 + x + 2 * y + div_trunc(xx, 10) + div_trunc(xy, 10) + div_trunc(sx, 10)
}

/// The high-frequency harmonic shared by both perturbations.
fn harmonic_shared(x: i128) -> (r: i128)
    requires
        spec_abs(x as int) <= 33_000_000_000_000,
    ensures
        r as int == spec_harmonic_shared(x as int),
        spec_abs(r as int) <= 27_000_000_000_000,
{
    let xp = mul_fp(x, PI_FP);
    proof {
        lemma_mul_fp_le(x as int, PI_FP as int, 33_000_000_000_000, PI_FP as int);
    }
    let s6 = sin_fp(6 * xp);
    let s2 = sin_fp(2 * xp);
    let r = div_trunc((20 * s6 + 20 * s2) * 2, 3);
    proof {
        lemma_tdiv_le((20 * s6 as int + 20 * s2 as int) * 2, 3, 80_000_000_000_000);
    }
    r
}

/// The low-frequency harmonics of the latitude perturbation.
fn lat_tail(y: i128) -> (r: i128)
    requires
        spec_abs(y as int) <= 35_000_000_000_000,
    ensures
        r as int == spec_lat_tail(y as int),
        spec_abs(r as int) <= 360_000_000_000_000,
{
    let yp = mul_fp(y, PI_FP);
    proof {
        lemma_mul_fp_le(y as int, PI_FP as int, 35_000_000_000_000, PI_FP as int);
    }
    let y3 = div_trunc(y, 3);
    proof {
        lemma_tdiv_le(y as int, 3, 35_000_000_000_000);
    }
    let y3p = mul_fp(y3, PI_FP);
    proof {
        lemma_mul_fp_le(y3 as int, PI_FP as int, 35_000_000_000_000, PI_FP as int);
    }
    let sy = sin_fp(yp);
    let sy3 = sin_fp(y3p);
    let h2 = div_trunc((20 * sy + 40 * sy3) * 2, 3);
    proof {
        lemma_tdiv_le((20 * sy as int + 40 * sy3 as int) * 2, 3, 120_000_000_000_000);
    }
    let y12 = div_trunc(y, 12);
    proof {
        lemma_tdiv_le(y as int, 12, 35_000_000_000_000);
    }
    let y12p = mul_fp(y12, PI_FP);
    proof {
        lemma_mul_fp_le(y12 as int, PI_FP as int, 35_000_000_000_000, PI_FP as int);
    }
    let yp30 = div_trunc(yp, 30);
    proof {
        lemma_tdiv_le(yp as int, 30, 110_000_000_000_000);
    }
    let sy12 = sin_fp(y12p);
    let sy30 = sin_fp(yp30);
    let h3 = div_trunc((160 * sy12 + 320 * sy30) * 2, 3);
    proof {
        lemma_tdiv_le((160 * sy12 as int + 320 * sy30 as int) * 2, 3, 960_000_000_000_000);
    }
    h2 + h3
}

/// The low-frequency harmonics of the longitude perturbation.
fn lon_tail(x: i128) -> (r: i128)
    requires
        spec_abs(x as int) <= 33_000_000_000_000,
    ensures
        r as int == spec_lon_tail(x as int),
        spec_abs(r as int) <= 340_000_000_000_000,
{
    let xp = mul_fp(x, PI_FP);
    proof {
        lemma_mul_fp_le(x as int, PI_FP as int, 33_000_000_000_000, PI_FP as int);
    }
    let x3 = div_trunc(x, 3);
    proof {
        lemma_tdiv_le(x as int, 3, 33_000_000_000_000);
    }
    let x3p = mul_fp(x3, PI_FP);
    proof {
        lemma_mul_fp_le(x3 as int, PI_FP as int, 33_000_000_000_000, PI_FP as int);
    }
    let sx1 = sin_fp(xp);
    let sx3 = sin_fp(x3p);
    let h2 = div_trunc((20 * sx1 + 40 * sx3) * 2, 3);
    proof {
        lemma_tdiv_le((20 * sx1 as int + 40 * sx3 as int) * 2, 3, 120_000_000_000_000);
    }
    let x12 = div_trunc(x, 12);
    let x30 = div_trunc(x, 30);
    proof {
        lemma_tdiv_le(x as int, 12, 33_000_000_000_000);
        lemma_tdiv_le(x as int, 30, 33_000_000_000_000);
    }
    let x12p = mul_fp(x12, PI_FP);
    let x30p = mul_fp(x30, PI_FP);
    proof {
        lemma_mul_fp_le(x12 as int, PI_FP as int, 33_000_000_000_000, PI_FP as int);
        lemma_mul_fp_le(x30 as int, PI_FP as int, 33_000_000_000_000, PI_FP as int);
    }
    let sx12 = sin_fp(x12p);
    let sx30 = sin_fp(x30p);
    let h3 = div_trunc((150 * sx12 + 300 * sx30) * 2, 3);
    proof {
        lemma_tdiv_le((150 * sx12 as int + 300 * sx30 as int) * 2, 3, 900_000_000_000_000);
    }
    h2 + h3
}

/// The latitude perturbation polynomial.
pub fn transform_lat(x: i128, y: i128) -> (r: i128)
    requires
        spec_abs(x as int) <= 33_000_000_000_000,
        spec_abs(y as int) <= 35_000_000_000_000,
    ensures
        r as int == spec_transform_lat(x as int, y as int),
        spec_abs(r as int) <= 1_100_000_000_000_000,
{
    lat_base(x, y) + harmonic_shared(x) + lat_tail(y)
}

/// The longitude perturbation polynomial.
pub fn transform_lon(x: i128, y: i128) -> (r: i128)
    requires
        spec_abs(x as int) <= 33_000_000_000_000,
        spec_abs(y as int) <= 35_000_000_000_000,
    ensures
        r as int == spec_transform_lon(x as int, y as int),
        spec_abs(r as int) <= 1_100_000_000_000_000,
{
    lon_base(x, y) + harmonic_shared(x) + lon_tail(x)
}

/// The degree deltas, for a point inside the box.
#[verifier::rlimit(100)]
pub fn delta(lng: i64, lat: i64) -> (d: (i64, i64))
    requires
        spec_in_china(lng as int, lat as int),
    ensures
        d.0 as int == spec_delta(lng as int, lat as int).0,
        d.1 as int == spec_delta(lng as int, lat as int).1,
        spec_abs(d.0 as int) <= 50_000_000_000,
        spec_abs(d.1 as int) <= 50_000_000_000,
{
    proof {
        reveal(spec_delta);
    }
    let x: i128 = lng as i128 - LNG_CENTER_FP as i128;
    let y: i128 = lat as i128 - LAT_CENTER_FP as i128;
    let dlon0 = transform_lon(x, y);
    let dlat0 = transform_lat(x, y);
    let lat180 = div_trunc(lat as i128, 180);
    proof {
        lemma_tdiv_le(lat as int, 180, 56_000_000_000_000);
    }
    let radlat = mul_fp(lat180, PI_FP);
    proof {
        lemma_mul_fp_le(lat180 as int, PI_FP as int, 312_000_000_000, PI_FP as int);
    }
    let ms = sin_fp(radlat);
    let ms2 = mul_fp(ms, ms);
    proof {
        lemma_mul_fp_le(ms as int, ms as int, SCALE as int, SCALE as int);
    }
    let e = mul_fp(KRASOVSKY_EE_FP, ms2);
    proof {
        lemma_mul_fp_le(KRASOVSKY_EE_FP as int, ms2 as int, KRASOVSKY_EE_FP as int, SCALE as int);
    }
    assert(0 <= e <= KRASOVSKY_EE_FP);
    let magic = SCALE - e;
    let sqrtmagic = sqrt_fp(magic);
    proof {
        lemma_sqrt_le(magic as int * SCALE as int, sqrtmagic as int, SCALE as int);
        lemma_sqrt_ge(magic as int * SCALE as int, sqrtmagic as int, 996_640_000_000);
    }
    let q1 = div_fp(KRASOVSKY_A_FP, sqrtmagic);
    proof {
        lemma_div_fp_le(
            KRASOVSKY_A_FP as int,
            sqrtmagic as int,
            KRASOVSKY_A_FP as int,
            996_640_000_000,
        );
    }
    assert(spec_abs(q1 as int) <= 6_400_000_000_000_000_000);
    let cr = cos_fp(radlat);
    let p1 = mul_fp(q1, cr);
    proof {
        lemma_mul_fp_le(q1 as int, cr as int, 6_400_000_000_000_000_000, SCALE as int);
    }
    let den_lng0 = mul_fp(p1, PI_FP);
    let den_lng = if den_lng0 < DEN_FLOOR {
        DEN_FLOOR
    } else {
        den_lng0
    };
    let num_lng = mul_fp(dlon0, DEGREE_180_FP);
    proof {
        lemma_mul_fp_le(
            dlon0 as int,
            DEGREE_180_FP as int,
            1_100_000_000_000_000,
            DEGREE_180_FP as int,
        );
    }
    let dlng = div_fp(num_lng, den_lng);
    proof {
        lemma_div_fp_le(num_lng as int, den_lng as int, 198_000_000_000_000_000, DEN_FLOOR as int);
    }
    let num2a = mul_fp(KRASOVSKY_A_FP, SCALE - KRASOVSKY_EE_FP);
    proof {
        lemma_mul_fp_le(
            KRASOVSKY_A_FP as int,
            SCALE as int - KRASOVSKY_EE_FP as int,
            KRASOVSKY_A_FP as int,
            SCALE as int,
        );
    }
    let mm = mul_fp(magic, sqrtmagic);
    proof {
        lemma_mul_fp_le(magic as int, sqrtmagic as int, SCALE as int, SCALE as int);
        assert(magic as int * sqrtmagic as int >= 993_306_578_377int * 996_640_000_000int)
            by (nonlinear_arith)
            requires
                magic as int >= 993_306_578_377,
                sqrtmagic as int >= 996_640_000_000,
        ;
        lemma_div_is_ordered(
            993_306_578_377int * 996_640_000_000int,
            magic as int * sqrtmagic as int,
            SCALE as int,
        );
    }
    assert(mm >= 989_968_000_000);
    let q2 = div_fp(num2a, mm);
    proof {
        lemma_div_fp_le(num2a as int, mm as int, 6_400_000_000_000_000_000, 989_968_000_000);
    }
    assert(spec_abs(q2 as int) <= 6_465_000_000_000_000_000);
    let den_lat0 = mul_fp(q2, PI_FP);
    let den_lat = if den_lat0 < DEN_FLOOR {
        DEN_FLOOR
    } else {
        den_lat0
    };
    let num_lat = mul_fp(dlat0, DEGREE_180_FP);
    proof {
        lemma_mul_fp_le(
            dlat0 as int,
            DEGREE_180_FP as int,
            1_100_000_000_000_000,
            DEGREE_180_FP as int,
        );
    }
    let dlat = div_fp(num_lat, den_lat);
    proof {
        lemma_div_fp_le(num_lat as int, den_lat as int, 198_000_000_000_000_000, DEN_FLOOR as int);
    }
    (dlng as i64, dlat as i64)
}

/// Convert a WGS84 coordinate to GCJ02; outside the box the conversion is
/// refused with `OutOfChina` before any numeric work.
pub fn wgs84_to_gcj02(coord: Coordinate) -> (r: Result<Coordinate, ConvertError>)
    ensures
        result_models(r, spec_wgs84_to_gcj02(coord.lng as int, coord.lat as int)),
        r matches Ok(g) ==> spec_abs(g.lng as int) <= 138_000_000_000_000 && spec_abs(
            g.lat as int,
        ) <= 56_000_000_000_000,
{
    if !is_in_china_bbox(coord.lng, coord.lat) {
        return Result::Err(ConvertError::OutOfChina);
    }
    let d = delta(coord.lng, coord.lat);
    Result::Ok(Coordinate { lng: coord.lng + d.0, lat: coord.lat + d.1 })
}

/// Convert a GCJ02 coordinate to WGS84 by fixed-point iteration: correct a
/// candidate by the residual of the forward transform until both components
/// agree within `CONVERGENCE_EPS`, for at most `MAX_ITERATIONS` rounds.
pub fn gcj02_to_wgs84(coord: Coordinate) -> (r: Result<Coordinate, ConvertError>)
    ensures
        result_models(r, spec_gcj02_to_wgs84(coord.lng as int, coord.lat as int)),
{
    if !is_in_china_bbox(coord.lng, coord.lat) {
        return Result::Err(ConvertError::OutOfChina);
    }
    let lng0 = coord.lng;
    let lat0 = coord.lat;
    let mut wl = lng0;
    let mut wt = lat0;
    let mut k: u32 = 0;
    let ghost target = spec_gcj_iter(
        lng0 as int,
        lat0 as int,
        lng0 as int,
        lat0 as int,
        MAX_ITERATIONS as nat,
    );
    while k < MAX_ITERATIONS
        invariant
            k <= MAX_ITERATIONS,
            lng0 == coord.lng,
            lat0 == coord.lat,
            spec_abs(lng0 as int) <= 138_000_000_000_000,
            spec_abs(lat0 as int) <= 56_000_000_000_000,
            spec_abs(wl as int) <= 450_000_000_000_000,
            spec_abs(wt as int) <= 450_000_000_000_000,
            spec_gcj_iter(
                lng0 as int,
                lat0 as int,
                wl as int,
                wt as int,
                (MAX_ITERATIONS - k) as nat,
            ) == target,
            target == spec_gcj02_to_wgs84(lng0 as int, lat0 as int),
        decreases MAX_ITERATIONS - k,
    {
        let ghost fuel = (MAX_ITERATIONS - k) as nat;
        let probe = wgs84_to_gcj02(Coordinate { lng: wl, lat: wt });
        match probe {
            Result::Err(e) => {
                proof {
                    assert(spec_gcj_iter(lng0 as int, lat0 as int, wl as int, wt as int, fuel)
                        == spec_wgs84_to_gcj02(wl as int, wt as int));
                }
                return Result::Err(e);
            },
            Result::Ok(t) => {
                let dx = t.lng - lng0;
                let dy = t.lat - lat0;
                let adx: i64 = if dx < 0 {
                    -dx
                } else {
                    dx
                };
                let ady: i64 = if dy < 0 {
                    -dy
                } else {
                    dy
                };
                if adx < CONVERGENCE_EPS && ady < CONVERGENCE_EPS {
                    proof {
                        assert(spec_gcj_iter(lng0 as int, lat0 as int, wl as int, wt as int, fuel)
                            == Result::<(int, int), ConvertError>::Ok((wl as int, wt as int)));
                    }
                    return Result::Ok(Coordinate { lng: wl, lat: wt });
                }
                proof {
                    assert(spec_gcj_iter(lng0 as int, lat0 as int, wl as int, wt as int, fuel)
                        == spec_gcj_iter(
                        lng0 as int,
                        lat0 as int,
                        wl as int - (t.lng as int - lng0 as int),
                        wt as int - (t.lat as int - lat0 as int),
                        (fuel - 1) as nat,
                    ));
                }
                wl = wl - dx;
                wt = wt - dy;
                k = k + 1;
            },
        }
    }
    Result::Err(ConvertError::ConvergenceFailed)
}

} // verus!
