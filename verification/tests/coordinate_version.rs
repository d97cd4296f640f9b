use vampire::coordinate::MavenCoordinate;
use vampire::errors::ResolveError;
use vampire::strutil;
use vampire::version::Version;

#[test]
fn parse_then_to_string_round_trips() {
    let c = MavenCoordinate::parse("com.example:foo:1.2.3").unwrap();
    assert_eq!(c.group_id, "com.example");
    assert_eq!(c.artifact_id, "foo");
    assert_eq!(c.version, "1.2.3");
    assert_eq!(c.to_string(), "com.example:foo:1.2.3");
}

#[test]
fn parse_round_trips_odd_segments() {
    let s = "a.b.c:weird-artifact_1:2.0.0-rc1";
    let c = MavenCoordinate::parse(s).unwrap();
    assert_eq!(c.to_string(), s);
}

#[test]
fn malformed_coordinates_fail_with_format_error() {
    for bad in ["", "a", "a:b", "a:b:c:d", "::", "a::c", ":b:c", "a:b:"] {
        match MavenCoordinate::parse(bad) {
            Err(ResolveError::CoordinateFormat { coordinate }) => {
                assert_eq!(coordinate, bad);
            }
            other => panic!("expected CoordinateFormat for {:?}, got {:?}", bad, other),
        }
    }
}

#[test]
fn coordinate_key_drops_version() {
    let c = MavenCoordinate::parse("g:a:1").unwrap();
    assert_eq!(c.key(), "g:a");
}

#[test]
fn to_path_uses_repository_layout() {
    let c = MavenCoordinate::parse("com.example.lib:foo:1.2.3").unwrap();
    assert_eq!(c.to_path("aar"), "com/example/lib/foo/1.2.3/foo-1.2.3.aar");
    assert_eq!(c.to_path("pom"), "com/example/lib/foo/1.2.3/foo-1.2.3.pom");
}

#[test]
fn metadata_path_is_version_independent() {
    let c = MavenCoordinate::parse("com.example:foo:1.2.3").unwrap();
    assert_eq!(c.metadata_path(), "com/example/foo/maven-metadata.xml");
}

#[test]
fn version_parse_strict_three_part() {
    let v = Version::parse("1.2.3").unwrap();
    assert_eq!(v.major, 1);
    assert_eq!(v.minor, 2);
    assert_eq!(v.patch, 3);
    assert!(Version::parse("1.2").is_none());
    assert!(Version::parse("1.2.3-beta").is_none());
    assert!(Version::parse("1.2.3.4").is_none());
    assert!(Version::parse("[1.2.3]").is_none());
    assert!(Version::parse("").is_none());
}

#[test]
fn version_parse_accepts_leading_zeros_and_rejects_overflow() {
    let v = Version::parse("007.0.1").unwrap();
    assert_eq!(v.major, 7);
    assert!(Version::parse("4294967296.0.0").is_none());
    let v = Version::parse("4294967295.0.0").unwrap();
    assert_eq!(v.major, u32::MAX);
}

#[test]
fn compatibility_rule() {
    let v = |a, b, c| Version { major: a, minor: b, patch: c };
    assert!(v(1, 5, 0).is_compatible_with(&v(1, 4, 9)));
    assert!(!v(2, 0, 0).is_compatible_with(&v(1, 9, 9)));
    assert!(!v(1, 4, 0).is_compatible_with(&v(1, 4, 1)));
    assert!(v(1, 4, 1).is_compatible_with(&v(1, 4, 1)));
}

#[test]
fn select_best_version_upgrades_within_major() {
    let requested = Version { major: 1, minor: 0, patch: 0 };
    let candidates: Vec<String> =
        ["1.0.0", "1.0.1", "1.1.0", "2.0.0"].iter().map(|s| s.to_string()).collect();
    let best = vampire::version::select_best_version(&requested, "1.0.0", &candidates);
    assert_eq!(best, "1.1.0");
}

#[test]
fn select_best_version_ignores_non_semver_and_keeps_requested() {
    let requested = Version { major: 1, minor: 0, patch: 0 };
    let candidates: Vec<String> =
        ["0.9.0", "1.0.0-beta", "not-a-version"].iter().map(|s| s.to_string()).collect();
    let best = vampire::version::select_best_version(&requested, "1.0.0", &candidates);
    assert_eq!(best, "1.0.0");
}

#[test]
fn parse_u32_values() {
    assert_eq!(strutil::parse_u32("0"), Some(0));
    assert_eq!(strutil::parse_u32("007"), Some(7));
    assert_eq!(strutil::parse_u32("4294967295"), Some(u32::MAX));
    assert_eq!(strutil::parse_u32("4294967296"), None);
    assert_eq!(strutil::parse_u32(""), None);
    assert_eq!(strutil::parse_u32("+7"), None);
    assert_eq!(strutil::parse_u32("1a"), None);
}

#[test]
fn u32_to_string_values() {
    assert_eq!(strutil::u32_to_string(0), "0");
    assert_eq!(strutil::u32_to_string(30), "30");
    assert_eq!(strutil::u32_to_string(4294967295), "4294967295");
}

#[test]
fn string_helpers() {
    assert_eq!(strutil::replace_str("a.b.c", ".", "/"), "a/b/c");
    assert_eq!(strutil::replace_str("aaa", "aa", "b"), "ba");
    assert_eq!(strutil::trim("  x y \t"), "x y");
    assert_eq!(strutil::strip_leading("[[x", '['), "x");
    assert_eq!(strutil::strip_trailing("x))", ')'), "x");
    assert!(strutil::contains_sub("error 404 not found", "404"));
    assert!(!strutil::contains_sub("error", "404"));
    let parts = strutil::split_char("a:b::c", ':');
    assert_eq!(parts, vec!["a", "b", "", "c"]);
}

#[test]
fn error_messages_are_descriptive() {
    let e = ResolveError::CoordinateFormat { coordinate: "x:y".to_string() };
    assert_eq!(
        e.message(),
        "invalid Maven coordinate 'x:y': expected groupId:artifactId:version"
    );
    let e = ResolveError::Integrity {
        coordinate: "g:a:1".to_string(),
        expected: "aa".to_string(),
        actual: "bb".to_string(),
    };
    assert_eq!(e.message(), "checksum mismatch for g:a:1: expected aa, got bb");
}

#[test]
fn emulator_classification() {
    assert!(vampire::device::is_emulator("generic/sdk_phone", "Pixel"));
    assert!(vampire::device::is_emulator("google/flame", "Android SDK built for x86"));
    assert!(!vampire::device::is_emulator("google/flame/flame:11", "Pixel 4"));
}
