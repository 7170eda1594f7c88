//! Conversion of planar geodetic coordinates between the WGS84, GCJ02 and
//! BD09 reference systems.
//!
//! Coordinates are carried in fixed point: one unit of `lng` or `lat` is
//! `10^-12` of a degree, so `114.304569` degrees is written
//! `114_304_569_000_000`. All arithmetic is integer arithmetic, and every
//! transform is specified exactly by a spec-level mirror of its computation.

use vstd::prelude::*;

pub mod fixed;
pub mod gcj02_bd09;
pub mod gcj02_wgs84;
pub mod trig;

verus! {

use crate::fixed::spec_abs;

/// Largest coordinate magnitude the total transforms accept: the fixed-point
/// engine's working envelope (1.8 million degrees), far beyond any geodetic
/// value.
pub const COORD_LIMIT: i64 = 1_800_000_000_000_000_000;

/// The three supported coordinate reference systems.
#[derive(Debug, Clone, Copy, PartialEq, Eq, Structural)]
pub enum CoordSystem {
    WGS84,
    GCJ02,
    BD09,
}

/// A longitude/latitude pair, in units of `10^-12` degree.
#[derive(Debug, Clone, Copy, PartialEq, Eq, Structural)]
pub struct Coordinate {
    pub lng: i64,
    pub lat: i64,
}

/// Why a conversion was not performed.
#[derive(Debug, Clone, Copy, PartialEq, Eq, Structural)]
pub enum ConvertError {
    UnsupportedConversion,
    OutOfChina,
    ConvergenceFailed,
}

impl Coordinate {
    /// Both components lie within the engine's working envelope.
    pub open spec fn bounded(self) -> bool {
        spec_abs(self.lng as int) <= COORD_LIMIT as int && spec_abs(self.lat as int)
            <= COORD_LIMIT as int
    }

    pub fn new(lng: i64, lat: i64) -> (c: Self)
        ensures
            c.lng == lng,
            c.lat == lat,
    {
        Self { lng, lat }
    }
}

/// An executable conversion result carries exactly the pair of components
/// (or the error) of its spec-level model.
pub open spec fn result_models(
    r: Result<Coordinate, ConvertError>,
    s: Result<(int, int), ConvertError>,
) -> bool {
    match (r, s) {
        (Result::Ok(c), Result::Ok(p)) => c.lng as int == p.0 && c.lat as int == p.1,
        (Result::Err(e1), Result::Err(e2)) => e1 == e2,
        _ => false,
    }
}

/// The conversion matrix over the three systems: the three identity pairs
/// return the input untouched, the four direct pairs delegate to the two
/// transform modules, and the two remaining pairs compose through GCJ02,
/// short-circuiting on error.
pub open spec fn spec_transform(lng: int, lat: int, from: CoordSystem, to: CoordSystem) -> Result<
    (int, int),
    ConvertError,
> {
    match (from, to) {
        (CoordSystem::WGS84, CoordSystem::GCJ02) => gcj02_wgs84::spec_wgs84_to_gcj02(lng, lat),
        (CoordSystem::GCJ02, CoordSystem::WGS84) => gcj02_wgs84::spec_gcj02_to_wgs84(lng, lat),
        (CoordSystem::GCJ02, CoordSystem::BD09) => Result::Ok(
            gcj02_bd09::spec_gcj02_to_bd09(lng, lat),
        ),
        (CoordSystem::BD09, CoordSystem::GCJ02) => Result::Ok(
            gcj02_bd09::spec_bd09_to_gcj02(lng, lat),
        ),
        (CoordSystem::WGS84, CoordSystem::BD09) => match gcj02_wgs84::spec_wgs84_to_gcj02(
            lng,
            lat,
        ) {
            Result::Ok(g) => Result::Ok(gcj02_bd09::spec_gcj02_to_bd09(g.0, g.1)),
            Result::Err(e) => Result::Err(e),
        },
        (CoordSystem::BD09, CoordSystem::WGS84) => {
            let g = gcj02_bd09::spec_bd09_to_gcj02(lng, lat);
            gcj02_wgs84::spec_gcj02_to_wgs84(g.0, g.1)
        },
        (CoordSystem::WGS84, CoordSystem::WGS84) => Result::Ok((lng, lat)),
        (CoordSystem::GCJ02, CoordSystem::GCJ02) => Result::Ok((lng, lat)),
        (CoordSystem::BD09, CoordSystem::BD09) => Result::Ok((lng, lat)),
    }
}

/// Convert `coord` from the system `from` to the system `to`.
///
/// An identity conversion returns the input unchanged without validation.
/// Both conversions that leave or reach WGS84 are gated on the China
/// bounding box and refuse the rest of the world with `OutOfChina`; the
/// GCJ02/BD09 pair is total. The envelope bound is required only where a
/// total transform must run on the raw input.
pub fn transform(coord: Coordinate, from: CoordSystem, to: CoordSystem) -> (r: Result<
    Coordinate,
    ConvertError,
>)
    requires
        ((from == CoordSystem::GCJ02 && to == CoordSystem::BD09) || (from == CoordSystem::BD09
            && (to == CoordSystem::GCJ02 || to == CoordSystem::WGS84))) ==> coord.bounded(),
    ensures
        result_models(r, spec_transform(coord.lng as int, coord.lat as int, from, to)),
        from == to ==> r == Result::<Coordinate, ConvertError>::Ok(coord),
        (from == CoordSystem::GCJ02 && to == CoordSystem::BD09) || (from == CoordSystem::BD09
            && to == CoordSystem::GCJ02) ==> r is Ok,
        from == CoordSystem::WGS84 && (to == CoordSystem::GCJ02 || to == CoordSystem::BD09) ==> (
        r is Err <==> !gcj02_wgs84::spec_in_china(coord.lng as int, coord.lat as int)) && (r is Err
            ==> r == Result::<Coordinate, ConvertError>::Err(ConvertError::OutOfChina)),
        from == CoordSystem::GCJ02 && to == CoordSystem::WGS84 && !gcj02_wgs84::spec_in_china(
            coord.lng as int,
            coord.lat as int,
        ) ==> r == Result::<Coordinate, ConvertError>::Err(ConvertError::OutOfChina),
        from == CoordSystem::BD09 && to == CoordSystem::WGS84 && !gcj02_wgs84::spec_in_china(
            gcj02_bd09::spec_bd09_to_gcj02(coord.lng as int, coord.lat as int).0,
            gcj02_bd09::spec_bd09_to_gcj02(coord.lng as int, coord.lat as int).1,
        ) ==> r == Result::<Coordinate, ConvertError>::Err(ConvertError::OutOfChina),
{
    match (from, to) {
        (CoordSystem::WGS84, CoordSystem::GCJ02) => gcj02_wgs84::wgs84_to_gcj02(coord),
        (CoordSystem::GCJ02, CoordSystem::WGS84) => gcj02_wgs84::gcj02_to_wgs84(coord),
        (CoordSystem::GCJ02, CoordSystem::BD09) => Result::Ok(gcj02_bd09::gcj02_to_bd09(coord)),
        (CoordSystem::BD09, CoordSystem::GCJ02) => Result::Ok(gcj02_bd09::bd09_to_gcj02(coord)),
        (CoordSystem::WGS84, CoordSystem::BD09) => match gcj02_wgs84::wgs84_to_gcj02(coord) {
            Result::Ok(g) => Result::Ok(gcj02_bd09::gcj02_to_bd09(g)),
            Result::Err(e) => Result::Err(e),
        },
        (CoordSystem::BD09, CoordSystem::WGS84) => gcj02_wgs84::gcj02_to_wgs84(
            gcj02_bd09::bd09_to_gcj02(coord),
        ),
        (CoordSystem::WGS84, CoordSystem::WGS84) => Result::Ok(coord),
        (CoordSystem::GCJ02, CoordSystem::GCJ02) => Result::Ok(coord),
        (CoordSystem::BD09, CoordSystem::BD09) => Result::Ok(coord),
    }
}

/// Identity law: converting a coordinate from any system to itself returns
/// it exactly, whatever its value.
pub proof fn lemma_transform_identity(lng: int, lat: int, s: CoordSystem)
    ensures
        spec_transform(lng, lat, s, s) == Result::<(int, int), ConvertError>::Ok((lng, lat)),
{
}

/// Composition law: converting WGS84 to BD09 is exactly converting WGS84 to
/// GCJ02 and, on success, that result from GCJ02 to BD09; the first error
/// short-circuits.
pub proof fn lemma_wgs84_to_bd09_composes(lng: int, lat: int)
    ensures
        spec_transform(lng, lat, CoordSystem::WGS84, CoordSystem::BD09) == (match spec_transform(
            lng,
            lat,
            CoordSystem::WGS84,
            CoordSystem::GCJ02,
        ) {
            Result::Ok(g) => spec_transform(g.0, g.1, CoordSystem::GCJ02, CoordSystem::BD09),
            Result::Err(e) => Result::Err(e),
        }),
{
}

/// Composition law: converting BD09 to WGS84 is exactly converting BD09 to
/// GCJ02 (which always succeeds) and that result from GCJ02 to WGS84.
pub proof fn lemma_bd09_to_wgs84_composes(lng: int, lat: int)
    ensures
        spec_transform(lng, lat, CoordSystem::BD09, CoordSystem::WGS84) == (match spec_transform(
            lng,
            lat,
            CoordSystem::BD09,
            CoordSystem::GCJ02,
        ) {
            Result::Ok(g) => spec_transform(g.0, g.1, CoordSystem::GCJ02, CoordSystem::WGS84),
            Result::Err(e) => Result::Err(e),
        }),
{
}

} // verus!
