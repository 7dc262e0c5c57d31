use cmake_package::{Version, VersionError};
use std::cmp::Ordering;

#[test]
fn test_version_parse_valid() {
    assert_eq!(Version::parse("1.2.3").unwrap(), Version { major: 1, minor: 2, patch: 3 });
    assert_eq!(Version::parse("1.2").unwrap(), Version { major: 1, minor: 2, patch: 0 });
    assert_eq!(Version::parse("1").unwrap(), Version { major: 1, minor: 0, patch: 0 });
}

#[test]
fn test_version_parse_invalid() {
    assert!(Version::parse("").is_err());
    assert!(Version::parse("1.2.3.4").is_err());
    assert!(Version::parse("a.b.c").is_err());
}

#[test]
fn test_version_into_string() {
    let version = Version { major: 1, minor: 2, patch: 3 };
    let version_str: String = version.into();
    assert_eq!(version_str, "1.2.3");
}

#[test]
fn test_version_partial_ord() {
    let v1 = Version { major: 1, minor: 0, patch: 0 };
    let v2 = Version { major: 1, minor: 1, patch: 0 };
    let v3 = Version { major: 1, minor: 1, patch: 1 };

    assert!(v1 < v2);
    assert!(v2 < v3);
    assert!(v1 < v3);
    assert!(v3 > v2);
    assert!(v2 > v1);
    assert!(v3 > v1);
}

#[test]
fn test_version_partial_eq() {
    let v1 = Version { major: 1, minor: 0, patch: 0 };
    let v2 = Version { major: 1, minor: 0, patch: 0 };
    let v3 = Version { major: 1, minor: 1, patch: 0 };

    assert_eq!(v1, v2);
    assert_ne!(v1, v3);
}

#[test]
fn test_version_try_into() {
    let version_str = "1.2.3";
    let version: Version = version_str.try_into().unwrap();
    assert_eq!(version, Version { major: 1, minor: 2, patch: 3 });

    let version_string = String::from("1.2.3");
    let version: Version = version_string.try_into().unwrap();
    assert_eq!(version, Version { major: 1, minor: 2, patch: 3 });
}

#[test]
fn test_display() {
    let version = Version { major: 1, minor: 2, patch: 3 };
    assert_eq!(version.to_string(), "1.2.3");
}

#[test]
fn parse_errors_are_invalid_version() {
    assert_eq!(Version::parse(""), Err(VersionError::InvalidVersion));
    assert_eq!(Version::parse("1.2.3.4"), Err(VersionError::InvalidVersion));
    assert_eq!(Version::parse("a.b.c"), Err(VersionError::InvalidVersion));
    assert_eq!(Version::parse("1..2"), Err(VersionError::InvalidVersion));
    assert_eq!(Version::parse("1.2."), Err(VersionError::InvalidVersion));
    assert_eq!(Version::parse("1.-2"), Err(VersionError::InvalidVersion));
    assert_eq!(Version::parse("+"), Err(VersionError::InvalidVersion));
}

#[test]
fn parse_component_limits() {
    assert_eq!(
        Version::parse("4294967295.0.1").unwrap(),
        Version { major: 4294967295, minor: 0, patch: 1 }
    );
    assert_eq!(Version::parse("4294967296"), Err(VersionError::InvalidVersion));
    assert_eq!(Version::parse("99999999999999999999"), Err(VersionError::InvalidVersion));
    assert_eq!(Version::parse("+1.007").unwrap(), Version { major: 1, minor: 7, patch: 0 });
}

#[test]
fn compare_follows_tuple_order() {
    let a = Version { major: 1, minor: 9, patch: 9 };
    let b = Version { major: 2, minor: 0, patch: 0 };
    let c = Version { major: 2, minor: 0, patch: 1 };
    assert_eq!(a.compare(&b), Ordering::Less);
    assert_eq!(b.compare(&a), Ordering::Greater);
    assert_eq!(b.compare(&c), Ordering::Less);
    assert_eq!(c.compare(&c), Ordering::Equal);
    assert!(b >= a);
    assert!(a <= b);
    // Componentwise comparison would get these wrong.
    assert!(!(a >= b));
    assert!(Version { major: 2, minor: 0, patch: 5 } >= Version { major: 1, minor: 3, patch: 7 });
}

#[test]
fn rendering_has_three_components() {
    for s in ["1", "1.2", "1.2.3", "0", "10.0.200"] {
        let rendered = Version::parse(s).unwrap().to_string();
        let parts: Vec<&str> = rendered.split('.').collect();
        assert_eq!(parts.len(), 3);
        assert!(parts.iter().all(|p| p.parse::<u32>().is_ok()));
        assert_eq!(Version::parse(&rendered), Version::parse(s));
    }
    assert_eq!(Version::parse("1").unwrap().to_string(), "1.0.0");
    assert_eq!(Version::parse("1.2").unwrap().to_string(), "1.2.0");
    assert_eq!(Version::parse("+3.04").unwrap().to_string(), "3.4.0");
}
