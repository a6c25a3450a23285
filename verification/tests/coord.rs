use appleloc::{is_unknown_sentinel, Location, ProtoLocation, UNKNOWN_SENTINEL};

fn proto(latitude: i64, longitude: i64) -> ProtoLocation {
    ProtoLocation { latitude, longitude, accuracy: 30, altitude: 12, altitude_accuracy: 5 }
}

#[test]
fn sentinel_is_recognised() {
    assert!(is_unknown_sentinel(-18_000_000_000));
}

#[test]
fn other_values_are_no_sentinel() {
    assert!(!is_unknown_sentinel(0));
    assert!(!is_unknown_sentinel(-17_999_999_999));
    assert!(!is_unknown_sentinel(-18_000_000_001));
    assert!(!is_unknown_sentinel(18_000_000_000));
    assert!(!is_unknown_sentinel(i64::MIN));
    assert!(!is_unknown_sentinel(i64::MAX));
}

#[test]
fn sentinel_constant_is_minus_180_degrees() {
    assert_eq!(UNKNOWN_SENTINEL, -180 * 100_000_000);
}

#[test]
fn sentinel_latitude_gives_no_location() {
    assert_eq!(Location::from_proto(proto(-18_000_000_000, -18_000_000_000)), None);
    assert_eq!(Location::from_proto(proto(-18_000_000_000, 0)), None);
}

#[test]
fn other_latitude_gives_the_same_numbers() {
    assert_eq!(
        Location::from_proto(proto(8_650_000_000, -12_340_000_000)),
        Some(Location {
            latitude: 8_650_000_000,
            longitude: -12_340_000_000,
            accuracy: 30,
            altitude: 12,
            altitude_accuracy: 5,
        })
    );
}

#[test]
fn sentinel_longitude_alone_is_a_location() {
    let location = Location::from_proto(proto(0, -18_000_000_000)).unwrap();
    assert_eq!(location.latitude, 0);
    assert_eq!(location.longitude, -18_000_000_000);
}

#[test]
fn fixed_point_scale_gives_the_documented_degrees() {
    let location = Location::from_proto(proto(8_650_000_000, -12_340_000_000)).unwrap();
    assert_eq!(location.latitude as f64 * 1e-8, 86.5);
    assert_eq!(location.longitude as f64 * 1e-8, -123.4);
}
