use service_index::version::{parse_version, version_to_string, Version};

fn v(major: u64, minor: u64, patch: u64) -> Version {
    Version { major, minor, patch }
}

#[test]
fn parses_plain_versions() {
    assert_eq!(parse_version("1.2.3"), Some(v(1, 2, 3)));
    assert_eq!(parse_version("0.1.0"), Some(v(0, 1, 0)));
    assert_eq!(parse_version("0.0.0"), Some(v(0, 0, 0)));
    assert_eq!(parse_version("10.200.3000"), Some(v(10, 200, 3000)));
}

#[test]
fn parses_largest_components() {
    assert_eq!(
        parse_version("18446744073709551615.0.0"),
        Some(v(u64::MAX, 0, 0))
    );
    assert_eq!(
        parse_version("0.0.18446744073709551615"),
        Some(v(0, 0, u64::MAX))
    );
}

#[test]
fn rejects_overflowing_components() {
    assert_eq!(parse_version("18446744073709551616.0.0"), None);
    assert_eq!(parse_version("0.99999999999999999999999999.0"), None);
}

#[test]
fn rejects_non_numeric_strings() {
    assert_eq!(parse_version("abc"), None);
    assert_eq!(parse_version("1.2.x"), None);
    assert_eq!(parse_version("a.b.c"), None);
    assert_eq!(parse_version("1.2.3-alpha"), None);
    assert_eq!(parse_version("1.2.3+build"), None);
}

#[test]
fn rejects_wrong_shapes() {
    assert_eq!(parse_version(""), None);
    assert_eq!(parse_version("1"), None);
    assert_eq!(parse_version("1.2"), None);
    assert_eq!(parse_version("1.2.3.4"), None);
    assert_eq!(parse_version("1..3"), None);
    assert_eq!(parse_version(".2.3"), None);
    assert_eq!(parse_version("1.2."), None);
    assert_eq!(parse_version("..."), None);
    assert_eq!(parse_version("v1.2.3"), None);
    assert_eq!(parse_version(" 1.2.3"), None);
    assert_eq!(parse_version("1.2.3 "), None);
}

#[test]
fn rejects_leading_zeroes() {
    assert_eq!(parse_version("01.2.3"), None);
    assert_eq!(parse_version("1.02.3"), None);
    assert_eq!(parse_version("1.2.03"), None);
    assert_eq!(parse_version("00.0.0"), None);
}

#[test]
fn writes_canonical_strings() {
    assert_eq!(version_to_string(&v(0, 1, 0)), "0.1.0");
    assert_eq!(version_to_string(&v(1, 2, 3)), "1.2.3");
    assert_eq!(version_to_string(&v(10, 200, 3000)), "10.200.3000");
    assert_eq!(
        version_to_string(&v(u64::MAX, 0, 7)),
        "18446744073709551615.0.7"
    );
}

#[test]
fn rendering_round_trips_through_parsing() {
    let samples = [
        v(0, 0, 0),
        v(0, 1, 0),
        v(1, 2, 3),
        v(9, 99, 999),
        v(u64::MAX, u64::MAX, u64::MAX),
    ];
    for version in samples {
        let written = version_to_string(&version);
        assert_eq!(parse_version(&written), Some(version));
    }
}
