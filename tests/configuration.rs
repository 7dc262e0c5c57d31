use cmake_package::{select_build_configuration, CMakeBuildType};

#[test]
fn test_build_type() {
    assert_eq!(select_build_configuration(None, None, None), CMakeBuildType::Debug);
    assert_eq!(select_build_configuration(Some("release"), None, None), CMakeBuildType::Release);
    assert_eq!(
        select_build_configuration(Some("release"), None, Some("1")),
        CMakeBuildType::RelWithDebInfo
    );
    assert_eq!(
        select_build_configuration(Some("release"), Some("s"), Some("0")),
        CMakeBuildType::MinSizeRel
    );
}

#[test]
fn non_release_profiles_are_debug() {
    assert_eq!(select_build_configuration(Some("debug"), Some("s"), Some("1")), CMakeBuildType::Debug);
    assert_eq!(select_build_configuration(Some("bench"), Some("3"), None), CMakeBuildType::Debug);
    assert_eq!(select_build_configuration(Some("Release"), None, None), CMakeBuildType::Debug);
}

#[test]
fn size_optimization_beats_debug_info() {
    for opt in ["s", "z"] {
        for debug in [None, Some("0"), Some("1"), Some("true"), Some("full")] {
            assert_eq!(
                select_build_configuration(Some("release"), Some(opt), debug),
                CMakeBuildType::MinSizeRel
            );
        }
    }
}

#[test]
fn debug_info_settings() {
    for debug in ["1", "true", "2", "line-tables-only"] {
        assert_eq!(
            select_build_configuration(Some("release"), Some("3"), Some(debug)),
            CMakeBuildType::RelWithDebInfo
        );
    }
    for debug in [Some("0"), Some("false"), Some("none"), None] {
        assert_eq!(
            select_build_configuration(Some("release"), Some("3"), debug),
            CMakeBuildType::Release
        );
    }
    assert_eq!(select_build_configuration(Some("release"), Some("sz"), None), CMakeBuildType::Release);
    assert_eq!(select_build_configuration(Some("release"), Some(""), None), CMakeBuildType::Release);
}

#[test]
fn build_type_names() {
    assert_eq!(CMakeBuildType::Debug.name(), "Debug");
    assert_eq!(CMakeBuildType::Release.name(), "Release");
    assert_eq!(CMakeBuildType::RelWithDebInfo.name(), "RelWithDebInfo");
    assert_eq!(CMakeBuildType::MinSizeRel.name(), "MinSizeRel");
}
