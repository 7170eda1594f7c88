//! Behavioural properties of the conversion matrix: identity, composition,
//! gating, totality of the GCJ02/BD09 pair, and round trips.

use coordtrans::{ConvertError, CoordSystem, Coordinate};

const EPSILON: i64 = 1_000_000;

const WUHAN: Coordinate = Coordinate { lng: 114_304_569_000_000, lat: 30_593_354_000_000 };

const TEHRAN_WGS: Coordinate = Coordinate { lng: 61_972_426_000_000, lat: 31_998_164_000_000 };

fn systems() -> [CoordSystem; 3] {
    [CoordSystem::WGS84, CoordSystem::GCJ02, CoordSystem::BD09]
}

#[test]
fn identity_returns_input_unchanged() {
    let points = [
        WUHAN,
        TEHRAN_WGS,
        Coordinate::new(0, 0),
        Coordinate::new(-987_654_321_000_000, 600_000_000_000_000),
    ];
    for s in systems() {
        for p in points {
            assert_eq!(coordtrans::transform(p, s, s), Ok(p));
        }
    }
}

#[test]
fn new_stores_components() {
    let c = Coordinate::new(5, -7);
    assert_eq!(c.lng, 5);
    assert_eq!(c.lat, -7);
}

#[test]
fn wgs84_to_bd09_matches_composition() {
    for p in [WUHAN, Coordinate::new(116_407_387_000_000, 39_904_179_000_000)] {
        let direct = coordtrans::transform(p, CoordSystem::WGS84, CoordSystem::BD09);
        let step1 = coordtrans::transform(p, CoordSystem::WGS84, CoordSystem::GCJ02).unwrap();
        let composed = coordtrans::transform(step1, CoordSystem::GCJ02, CoordSystem::BD09);
        assert_eq!(direct, composed);
    }
}

#[test]
fn bd09_to_wgs84_matches_composition() {
    for p in [
        Coordinate::new(114_316_583_000_000, 30_596_644_000_000),
        Coordinate::new(116_420_033_000_000, 39_911_844_000_000),
    ] {
        let direct = coordtrans::transform(p, CoordSystem::BD09, CoordSystem::WGS84);
        let step1 = coordtrans::transform(p, CoordSystem::BD09, CoordSystem::GCJ02).unwrap();
        let composed = coordtrans::transform(step1, CoordSystem::GCJ02, CoordSystem::WGS84);
        assert_eq!(direct, composed);
    }
}

#[test]
fn out_of_china_is_rejected_on_wgs84_gcj02_paths() {
    let err: Result<Coordinate, ConvertError> = Err(ConvertError::OutOfChina);
    assert_eq!(coordtrans::transform(TEHRAN_WGS, CoordSystem::WGS84, CoordSystem::GCJ02), err);
    assert_eq!(coordtrans::transform(TEHRAN_WGS, CoordSystem::GCJ02, CoordSystem::WGS84), err);
    assert_eq!(coordtrans::transform(TEHRAN_WGS, CoordSystem::WGS84, CoordSystem::BD09), err);
    assert_eq!(coordtrans::transform(TEHRAN_WGS, CoordSystem::BD09, CoordSystem::WGS84), err);
}

#[test]
fn gcj02_bd09_pair_never_errors() {
    let points = [
        WUHAN,
        TEHRAN_WGS,
        Coordinate::new(0, 0),
        Coordinate::new(-180_000_000_000_000, -90_000_000_000_000),
        Coordinate::new(179_999_999_999_999, 89_999_999_999_999),
    ];
    for p in points {
        assert!(coordtrans::transform(p, CoordSystem::GCJ02, CoordSystem::BD09).is_ok());
        assert!(coordtrans::transform(p, CoordSystem::BD09, CoordSystem::GCJ02).is_ok());
    }
}

#[test]
fn round_trips_stay_within_epsilon() {
    let p = WUHAN;
    for a in systems() {
        for b in systems() {
            if a == b {
                continue;
            }
            let there = coordtrans::transform(p, a, b).unwrap();
            let back = coordtrans::transform(there, b, a).unwrap();
            assert!((back.lng - p.lng).abs() < EPSILON, "{:?} -> {:?} lng", a, b);
            assert!((back.lat - p.lat).abs() < EPSILON, "{:?} -> {:?} lat", a, b);
        }
    }
}

#[test]
fn gcj02_to_bd09_shifts_north_east() {
    let bd = coordtrans::transform(WUHAN, CoordSystem::GCJ02, CoordSystem::BD09).unwrap();
    assert!(bd.lng > WUHAN.lng);
    assert!(bd.lat > WUHAN.lat);
}

#[test]
fn box_edges_are_inside() {
    let corners = [
        Coordinate::new(72_004_000_000_000, 829_300_000_000),
        Coordinate::new(137_834_700_000_000, 55_827_100_000_000),
    ];
    for p in corners {
        assert!(coordtrans::transform(p, CoordSystem::WGS84, CoordSystem::GCJ02).is_ok());
    }
    let outside = [
        Coordinate::new(72_003_999_999_999, 829_300_000_000),
        Coordinate::new(137_834_700_000_001, 55_827_100_000_000),
        Coordinate::new(100_000_000_000_000, 829_299_999_999),
        Coordinate::new(100_000_000_000_000, 55_827_100_000_001),
    ];
    for p in outside {
        assert_eq!(
            coordtrans::transform(p, CoordSystem::WGS84, CoordSystem::GCJ02),
            Err(ConvertError::OutOfChina)
        );
    }
}
