//! The reference conversion scenarios. Coordinates are in units of `10^-12`
//! degree, so `114.304569` degrees is `114_304_569_000_000`; the tolerance
//! of `10^-6` degree is `1_000_000` units.

use coordtrans::{CoordSystem, Coordinate};

const EPSILON: i64 = 1_000_000;

#[test]
fn test_gcj02_wgs84() {
    {
        let from = Coordinate::new(114_304_569_000_000, 30_593_354_000_000);
        let expected = Coordinate::new(114_310_012_000_000, 30_590_943_000_000);
        let to = coordtrans::transform(from, CoordSystem::WGS84, CoordSystem::GCJ02);
        assert!(to.is_ok());
        let to = to.unwrap();
        println!("{} {}", to.lng, to.lat);
        assert!((to.lng - expected.lng).abs() < EPSILON);
        assert!((to.lat - expected.lat).abs() < EPSILON);
    }
    {
        let from = Coordinate::new(116_407_387_000_000, 39_904_179_000_000);
        let expected = Coordinate::new(116_413_629_000_000, 39_905_582_000_000);
        let to = coordtrans::transform(from, CoordSystem::WGS84, CoordSystem::GCJ02);
        assert!(to.is_ok());
        let to = to.unwrap();
        println!("{} {}", to.lng, to.lat);
        assert!((to.lng - expected.lng).abs() < EPSILON);
        assert!((to.lat - expected.lat).abs() < EPSILON);
    }
    {
        let from = Coordinate::new(61_972_426_000_000, 31_998_164_000_000);
        let to = coordtrans::transform(from, CoordSystem::WGS84, CoordSystem::GCJ02);
        assert!(to.is_err());
    }
    {
        let expected = Coordinate::new(114_304_569_000_000, 30_593_354_000_000);
        let from = Coordinate::new(114_310_012_000_000, 30_590_943_000_000);
        let to = coordtrans::transform(from, CoordSystem::GCJ02, CoordSystem::WGS84);
        assert!(to.is_ok());
        let to = to.unwrap();
        println!("{} {}", to.lng, to.lat);
        assert!((to.lng - expected.lng).abs() < EPSILON);
        assert!((to.lat - expected.lat).abs() < EPSILON);
    }
    {
        let expected = Coordinate::new(116_407_387_000_000, 39_904_179_000_000);
        let from = Coordinate::new(116_413_629_000_000, 39_905_582_000_000);
        let to = coordtrans::transform(from, CoordSystem::GCJ02, CoordSystem::WGS84);
        assert!(to.is_ok());
        let to = to.unwrap();
        println!("{} {}", to.lng, to.lat);
        assert!((to.lng - expected.lng).abs() < EPSILON);
        assert!((to.lat - expected.lat).abs() < EPSILON);
    }
}

#[test]
fn test_gcj02_bd09() {
    {
        let from = Coordinate::new(114_304_569_000_000, 30_593_354_000_000);
        let expected = Coordinate::new(114_311_152_000_000, 30_599_019_000_000);
        let to = coordtrans::transform(from, CoordSystem::GCJ02, CoordSystem::BD09);
        assert!(to.is_ok());
        let to = to.unwrap();
        println!("{} {}", to.lng, to.lat);
        assert!((to.lng - expected.lng).abs() < EPSILON);
        assert!((to.lat - expected.lat).abs() < EPSILON);
    }
    {
        let from = Coordinate::new(116_407_387_000_000, 39_904_179_000_000);
        let expected = Coordinate::new(116_413_772_000_000, 39_910_501_000_000);
        let to = coordtrans::transform(from, CoordSystem::GCJ02, CoordSystem::BD09);
        assert!(to.is_ok());
        let to = to.unwrap();
        println!("{} {}", to.lng, to.lat);
        assert!((to.lng - expected.lng).abs() < EPSILON);
        assert!((to.lat - expected.lat).abs() < EPSILON);
    }
    {
        let from = Coordinate::new(61_972_426_000_000, 31_998_164_000_000);
        let to = coordtrans::transform(from, CoordSystem::WGS84, CoordSystem::GCJ02);
        assert!(to.is_err());
    }
    {
        let expected = Coordinate::new(114_304_569_000_000, 30_593_354_000_000);
        let from = Coordinate::new(114_311_152_000_000, 30_599_019_000_000);
        let to = coordtrans::transform(from, CoordSystem::BD09, CoordSystem::GCJ02);
        assert!(to.is_ok());
        let to = to.unwrap();
        println!("{} {}", to.lng, to.lat);
        assert!((to.lng - expected.lng).abs() < EPSILON);
        assert!((to.lat - expected.lat).abs() < EPSILON);
    }
    {
        let expected = Coordinate::new(116_407_387_000_000, 39_904_179_000_000);
        let from = Coordinate::new(116_413_772_000_000, 39_910_501_000_000);
        let to = coordtrans::transform(from, CoordSystem::BD09, CoordSystem::GCJ02);
        assert!(to.is_ok());
        let to = to.unwrap();
        println!("{} {}", to.lng, to.lat);
        assert!((to.lng - expected.lng).abs() < EPSILON);
        assert!((to.lat - expected.lat).abs() < EPSILON);
    }
}

#[test]
fn test_wgs84_bd09() {
    {
        let expected = Coordinate::new(114_304_569_000_000, 30_593_354_000_000);
        let from = Coordinate::new(114_316_583_000_000, 30_596_644_000_000);
        let to = coordtrans::transform(from, CoordSystem::BD09, CoordSystem::WGS84);
        assert!(to.is_ok());
        let to = to.unwrap();
        println!("{} {}", to.lng, to.lat);
        assert!((to.lng - expected.lng).abs() < EPSILON);
        assert!((to.lat - expected.lat).abs() < EPSILON);
    }
    {
        let expected = Coordinate::new(116_407_387_000_000, 39_904_178_000_000);
        let from = Coordinate::new(116_420_033_000_000, 39_911_844_000_000);
        let to = coordtrans::transform(from, CoordSystem::BD09, CoordSystem::WGS84);
        assert!(to.is_ok());
        let to = to.unwrap();
        println!("{} {}", to.lng, to.lat);
        assert!((to.lng - expected.lng).abs() < EPSILON);
        assert!((to.lat - expected.lat).abs() < EPSILON);
    }
    {
        let from = Coordinate::new(61_972_426_000_000, 31_998_164_000_000);
        let to = coordtrans::transform(from, CoordSystem::WGS84, CoordSystem::GCJ02);
        assert!(to.is_err());
    }
    {
        let from = Coordinate::new(114_304_569_000_000, 30_593_354_000_000);
        let expected = Coordinate::new(114_316_583_000_000, 30_596_644_000_000);
        let to = coordtrans::transform(from, CoordSystem::WGS84, CoordSystem::BD09);
        assert!(to.is_ok());
        let to = to.unwrap();
        println!("{} {}", to.lng, to.lat);
        assert!((to.lng - expected.lng).abs() < EPSILON);
        assert!((to.lat - expected.lat).abs() < EPSILON);
    }
    {
        let from = Coordinate::new(116_407_387_000_000, 39_904_179_000_000);
        let expected = Coordinate::new(116_420_033_000_000, 39_911_844_000_000);
        let to = coordtrans::transform(from, CoordSystem::WGS84, CoordSystem::BD09);
        assert!(to.is_ok());
        let to = to.unwrap();
        println!("{} {}", to.lng, to.lat);
        assert!((to.lng - expected.lng).abs() < EPSILON);
        assert!((to.lat - expected.lat).abs() < EPSILON);
    }
}
