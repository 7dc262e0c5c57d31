use cmake_package::finder::{configure_arguments, join_list, target_file_for_lowercase, target_output_file};
use cmake_package::package::{cmake_program, cmake_program_with_version, min_cmake_version, package_from_result, PackageResult};
use cmake_package::{find_package, CMakeBuildType, CMakeProgram, Error, Version, VersionError, CMAKE_MIN_VERSION};
use std::path::PathBuf;

fn program() -> CMakeProgram {
    CMakeProgram { path: PathBuf::from("/usr/bin/cmake"), version: Version { major: 3, minor: 28, patch: 1 } }
}

fn result(name: Option<&str>, version: Option<&str>) -> PackageResult {
    PackageResult {
        name: name.map(|s| s.to_string()),
        version: version.map(|s| s.to_string()),
        components: Some(vec!["Core".to_string()]),
    }
}

fn dir() -> tempfile::TempDir {
    tempfile::TempDir::new().unwrap()
}

#[test]
fn package_not_found_without_name() {
    let r = package_from_result(program(), dir(), result(None, Some("1.0")), None, false);
    assert!(matches!(r, Err(Error::PackageNotFound)));
}

#[test]
fn package_with_invalid_version() {
    let r = package_from_result(program(), dir(), result(Some("Foo"), Some("1.x")), None, false);
    assert!(matches!(r, Err(Error::Version(VersionError::InvalidVersion))));
}

#[test]
fn package_too_old() {
    let required = Some(Version { major: 1, minor: 2, patch: 0 });
    let r = package_from_result(program(), dir(), result(Some("Foo"), Some("1.1.9")), required, false);
    match r {
        Err(Error::Version(VersionError::VersionTooOld(v))) => {
            assert_eq!(v, Version { major: 1, minor: 1, patch: 9 })
        }
        other => panic!("expected VersionTooOld, got {:?}", other),
    }
}

#[test]
fn package_found() {
    let required = Some(Version { major: 1, minor: 2, patch: 0 });
    let p = package_from_result(program(), dir(), result(Some("Foo"), Some("1.2")), required, true).unwrap();
    assert_eq!(p.name, "Foo");
    assert_eq!(p.version, Some(Version { major: 1, minor: 2, patch: 0 }));
    assert_eq!(p.components, Some(vec!["Core".to_string()]));
    assert!(p.verbose);
    assert_eq!(p.cmake.path, PathBuf::from("/usr/bin/cmake"));

    let p = package_from_result(program(), dir(), result(Some("Bar"), None), required, false).unwrap();
    assert_eq!(p.version, None);
}

#[test]
fn cmake_versions() {
    assert_eq!(min_cmake_version(), Version::parse(CMAKE_MIN_VERSION).unwrap());
    let ok = cmake_program(PathBuf::from("/bin/cmake"), "  3.28.1\n").unwrap();
    assert_eq!(ok.version, Version { major: 3, minor: 28, patch: 1 });
    assert_eq!(ok.path, PathBuf::from("/bin/cmake"));
    assert!(cmake_program(PathBuf::from("/bin/cmake"), "3.19\n").is_ok());
    assert!(matches!(cmake_program(PathBuf::from("/bin/cmake"), "3.18.9\n"), Err(Error::UnsupportedCMakeVersion)));
    assert!(matches!(cmake_program(PathBuf::from("/bin/cmake"), "cmake version 3.28\n"), Err(Error::UnsupportedCMakeVersion)));
    assert!(matches!(cmake_program_with_version(PathBuf::from("/bin/cmake"), " 3.28"), Err(Error::UnsupportedCMakeVersion)));
}

#[test]
fn builder_settings() {
    let b = find_package("OpenSSL");
    assert_eq!(b.name, "OpenSSL");
    assert_eq!(b.version, None);
    assert!(!b.verbose);
    let b = b.version("1.0").components(vec!["SSL".to_string()]).verbose();
    assert_eq!(b.version, Some(Version { major: 1, minor: 0, patch: 0 }));
    assert_eq!(b.components, Some(vec!["SSL".to_string()]));
    assert!(b.verbose);
    assert_eq!(b.name, "OpenSSL");
}

#[test]
fn package_query_arguments() {
    let args = configure_arguments(CMakeBuildType::Release, "Qt6", None, "/tmp/q/package.json", None, None);
    assert_eq!(
        args,
        vec![".", "-DCMAKE_BUILD_TYPE=Release", "-DCMAKE_MIN_VERSION=3.19", "-DPACKAGE=Qt6", "-DOUTPUT_FILE=/tmp/q/package.json"]
    );
    let components = vec!["Core".to_string(), "Gui".to_string(), "Widgets".to_string()];
    let args = configure_arguments(
        CMakeBuildType::MinSizeRel,
        "Qt6",
        Some("Qt6::Core"),
        "out.json",
        Some(Version { major: 6, minor: 2, patch: 0 }),
        Some(&components),
    );
    assert_eq!(
        args,
        vec![
            ".",
            "-DCMAKE_BUILD_TYPE=MinSizeRel",
            "-DCMAKE_MIN_VERSION=3.19",
            "-DPACKAGE=Qt6",
            "-DTARGET=Qt6::Core",
            "-DOUTPUT_FILE=out.json",
            "-DVERSION=6.2.0",
            "-DCOMPONENTS=Core;Gui;Widgets",
        ]
    );
}

#[test]
fn list_joining() {
    assert_eq!(join_list(&vec![]), "");
    assert_eq!(join_list(&vec!["a".to_string()]), "a");
    assert_eq!(join_list(&vec!["a".to_string(), "".to_string(), "c".to_string()]), "a;;c");
}

#[test]
fn target_file_names() {
    assert_eq!(target_output_file("OpenSSL::SSL"), "target_openssl__ssl.json");
    assert_eq!(target_output_file("Qt6::Core"), "target_qt6__core.json");
    assert_eq!(target_file_for_lowercase("a:b"), "target_a_b.json");
    assert_eq!(target_file_for_lowercase(""), "target_.json");
}
