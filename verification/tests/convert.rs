use file_creator::creator::SizeSpec;
use file_creator::decimal::size_to_bytes;
use file_creator::units::Unit;

#[test]
fn one_megabyte() {
    assert_eq!(size_to_bytes("1", "MB"), 1048576);
}

#[test]
fn four_hundred_fifty_gigabytes() {
    assert_eq!(size_to_bytes("450", "GB"), 483183820800);
}

#[test]
fn one_and_a_half_kilobytes() {
    assert_eq!(size_to_bytes("1.5", "KB"), 1536);
}

#[test]
fn plain_bytes() {
    assert_eq!(size_to_bytes("7", "B"), 7);
}

#[test]
fn unknown_unit_falls_back_to_bytes() {
    // A typo'd unit is deliberately accepted with multiplier 1.
    assert_eq!(size_to_bytes("5", "XX"), 5);
    assert_eq!(size_to_bytes("5", ""), 5);
    assert_eq!(size_to_bytes("5", "kb"), 5);
}

#[test]
fn unit_tags_resolve() {
    assert_eq!(Unit::from_tag("KB"), Unit::Kilobyte);
    assert_eq!(Unit::from_tag("MB"), Unit::Megabyte);
    assert_eq!(Unit::from_tag("GB"), Unit::Gigabyte);
    assert_eq!(Unit::from_tag("B"), Unit::Byte);
    assert_eq!(Unit::from_tag("TB"), Unit::Byte);
}

#[test]
fn multipliers_are_binary() {
    assert_eq!(Unit::Byte.multiplier(), 1);
    assert_eq!(Unit::Kilobyte.multiplier(), 1024);
    assert_eq!(Unit::Megabyte.multiplier(), 1024 * 1024);
    assert_eq!(Unit::Gigabyte.multiplier(), 1024 * 1024 * 1024);
}

#[test]
fn zero_magnitude_is_zero_bytes() {
    assert_eq!(size_to_bytes("0", "GB"), 0);
}

#[test]
fn fractions_floor_toward_zero() {
    assert_eq!(size_to_bytes("0.5", "B"), 0);
    assert_eq!(size_to_bytes("2.9", "B"), 2);
    assert_eq!(size_to_bytes("0.001", "KB"), 1);
    assert_eq!(size_to_bytes("0.0009", "KB"), 0);
}

#[test]
fn bare_point_forms() {
    assert_eq!(size_to_bytes(".5", "KB"), 512);
    assert_eq!(size_to_bytes("1.", "MB"), 1048576);
}

#[test]
fn long_fraction_is_exact() {
    // 0.0009765625 KB is exactly one byte.
    assert_eq!(size_to_bytes("0.0009765625", "KB"), 1);
    // Just under one byte floors to zero.
    assert_eq!(size_to_bytes("0.0009765624999999999999999999", "KB"), 0);
}

#[test]
fn plus_sign_accepted() {
    assert_eq!(size_to_bytes("+2", "KB"), 2048);
}

#[test]
fn huge_magnitude_saturates() {
    assert_eq!(size_to_bytes("99999999999999999999999", "GB"), u64::MAX);
    assert_eq!(size_to_bytes("18446744073709551615", "B"), u64::MAX);
    assert_eq!(size_to_bytes("18446744073709551616", "B"), u64::MAX);
}

#[test]
fn common_capacity_probes() {
    assert_eq!(size_to_bytes("1800", "GB"), 1800 * 1024 * 1024 * 1024);
    assert_eq!(size_to_bytes("890", "GB"), 890 * 1024 * 1024 * 1024);
    assert_eq!(size_to_bytes("112", "GB"), 112 * 1024 * 1024 * 1024);
}

#[test]
fn size_spec_byte_count() {
    let s = SizeSpec::new("1.5", "KB").unwrap();
    assert_eq!(s.unit, Unit::Kilobyte);
    assert_eq!(s.magnitude, "1.5");
    assert_eq!(s.byte_count(), 1536);
}
