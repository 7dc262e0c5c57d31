use crate::version::{
    decimal_value, digits_value, lemma_split_after_sep, lemma_split_without_sep, parse_version,
    split_on, version_cmp, Version, VersionError,
};
use std::cmp::Ordering;
use vstd::prelude::*;

verus! {

#[verifier::external_type_specification]
#[verifier::external_body]
pub struct ExPathBuf(std::path::PathBuf);

#[verifier::external_type_specification]
#[verifier::external_body]
pub struct ExTempDir(tempfile::TempDir);

#[verifier::external_type_specification]
#[verifier::external_body]
pub struct ExIoError(std::io::Error);

/// The oldest CMake release that can run the package queries.
pub const CMAKE_MIN_VERSION: &'static str = "3.19";

/// The CMake program found on the system.
#[derive(Debug)]
pub struct CMakeProgram {
    /// Path to the `cmake` executable.
    pub path: std::path::PathBuf,
    /// Its version, at least `CMAKE_MIN_VERSION`.
    pub version: Version,
}

/// What can go wrong while finding CMake or a package.
#[derive(Debug)]
pub enum Error {
    /// No `cmake` executable on the search path.
    CMakeNotFound,
    /// The CMake found is older than `CMAKE_MIN_VERSION`, or did not tell its version.
    UnsupportedCMakeVersion,
    /// An internal error of the library.
    Internal,
    /// An I/O error while running `cmake`.
    IO(std::io::Error),
    /// A version error: the package's version is invalid or too old.
    Version(VersionError),
    /// CMake did not find the package.
    PackageNotFound,
}

pub open spec fn cmake_min_version() -> Version {
    Version { major: 3, minor: 19, patch: 0 }
}

proof fn lemma_min_version_parses()
    ensures
        parse_version(CMAKE_MIN_VERSION@) == Ok::<Version, VersionError>(cmake_min_version()),
{
    reveal_strlit("3.19");
    let three = seq!['3'];
    let nineteen = seq!['1', '9'];
    assert(CMAKE_MIN_VERSION@ =~= three + seq!['.'] + nineteen);
    lemma_split_without_sep(three, '.');
    lemma_split_after_sep(three, nineteen, '.');
    let parts = split_on(CMAKE_MIN_VERSION@, '.');
    assert(parts =~= seq![three, nineteen]);
    assert(three.drop_last() =~= Seq::<char>::empty());
    assert(three.last() == '3');
    assert(('3' as int) - ('0' as int) == 3);
    assert(digits_value(three.drop_last()) == 0);
    assert(digits_value(three) == 3);
    assert(nineteen.drop_last() =~= seq!['1']);
    assert(seq!['1'].drop_last() =~= Seq::<char>::empty());
    assert(('1' as int) - ('0' as int) == 1);
    assert(('9' as int) - ('0' as int) == 9);
    assert(digits_value(seq!['1']) == 1);
    assert(digits_value(nineteen) == 19);
    assert(decimal_value(three) == Some(3u32));
    assert(decimal_value(nineteen) == Some(19u32));
}

/// The oldest supported CMake version.
pub fn min_cmake_version() -> (r: Version)
    ensures
        r == cmake_min_version(),
{
    proof {
        lemma_min_version_parses();
    }
    match Version::parse(CMAKE_MIN_VERSION) {
        Ok(v) => v,
        Err(_) => Version { major: 3, minor: 19, patch: 0 },
    }
}

/// Accepts the CMake at `path` if `version`, the version it reports, parses and is not older
/// than `CMAKE_MIN_VERSION`.
pub fn cmake_program_with_version(path: std::path::PathBuf, version: &str) -> (r: Result<
    CMakeProgram,
    Error,
>)
    ensures
        match parse_version(version@) {
            Ok(v) => if version_cmp(v, cmake_min_version()) == Ordering::Less {
                r matches Err(Error::UnsupportedCMakeVersion)
            } else {
                r matches Ok(p) && p.path == path && p.version == v
            },
            Err(_) => r matches Err(Error::UnsupportedCMakeVersion),
        },
{
    let found = match Version::parse(version) {
        Ok(v) => v,
        Err(_) => return Err(Error::UnsupportedCMakeVersion),
    };
    if let Ordering::Less = found.compare(&min_cmake_version()) {
        return Err(Error::UnsupportedCMakeVersion);
    }
    Ok(CMakeProgram { path, version: found })
}

/// `s` without its leading and trailing whitespace.
pub uninterp spec fn trimmed(s: Seq<char>) -> Seq<char>;

/// Relies on `str::trim`: `s` without leading and trailing whitespace, which depends on `s`
/// alone.
#[verifier::external_body]
fn trim(s: &str) -> (r: &str)
    ensures
        r@ == trimmed(s@),
{
    s.trim()
}

/// Accepts the CMake at `path` given what its version query printed: the version, with
/// whitespace around it.
pub fn cmake_program(path: std::path::PathBuf, output: &str) -> (r: Result<CMakeProgram, Error>)
    ensures
        match parse_version(trimmed(output@)) {
            Ok(v) => if version_cmp(v, cmake_min_version()) == Ordering::Less {
                r matches Err(Error::UnsupportedCMakeVersion)
            } else {
                r matches Ok(p) && p.path == path && p.version == v
            },
            Err(_) => r matches Err(Error::UnsupportedCMakeVersion),
        },
{
    cmake_program_with_version(path, trim(output))
}

/// What the package query reports: the package's name if CMake found it, its version if it
/// has one, and its components.
#[derive(Debug, Clone)]
pub struct PackageResult {
    pub name: Option<String>,
    pub version: Option<String>,
    pub components: Option<Vec<String>>,
}

/// A CMake package found on the system.
#[derive(Debug)]
pub struct CMakePackage {
    /// The CMake program that found the package.
    pub cmake: CMakeProgram,
    /// The directory in which the package is queried.
    pub working_directory: tempfile::TempDir,
    /// Whether CMake's output is shown.
    pub verbose: bool,
    /// Name of the package.
    pub name: String,
    /// Version of the package found, if it reports one.
    pub version: Option<Version>,
    /// Components of the package.
    pub components: Option<Vec<String>>,
}

impl CMakePackage {
    fn new(
        cmake: CMakeProgram,
        working_directory: tempfile::TempDir,
        name: String,
        version: Option<Version>,
        components: Option<Vec<String>>,
        verbose: bool,
    ) -> (r: Self)
        ensures
            r.cmake == cmake,
            r.working_directory == working_directory,
            r.name == name,
            r.version == version,
            r.components == components,
            r.verbose == verbose,
    {
        CMakePackage { cmake, working_directory, name, version, components, verbose }
    }
}

/// The version a package reports: none if it reports none, else what its text parses to.
pub open spec fn reported_version(version: Option<String>) -> Result<Option<Version>, VersionError> {
    match version {
        None => Ok(None),
        Some(s) => match parse_version(s@) {
            Ok(v) => Ok(Some(v)),
            Err(e) => Err(e),
        },
    }
}

/// Judges what the package query reported against the version asked for. A package without a
/// name was not found; a version that does not parse, or that is older than `required`, is an
/// error. A package that reports no version is accepted whatever was asked for.
pub fn package_from_result(
    cmake: CMakeProgram,
    working_directory: tempfile::TempDir,
    result: PackageResult,
    required: Option<Version>,
    verbose: bool,
) -> (r: Result<CMakePackage, Error>)
    ensures
        result.name is None ==> r matches Err(Error::PackageNotFound),
        result.name is Some ==> match reported_version(result.version) {
            Err(e) => r matches Err(Error::Version(e2)) && e2 == e,
            Ok(found) => if found is Some && required is Some && version_cmp(
                found->0,
                required->0,
            ) == Ordering::Less {
                r matches Err(Error::Version(VersionError::VersionTooOld(v))) && v == found->0
            } else {
                r matches Ok(p) && p.name == result.name->0 && p.version == found && p.components
                    == result.components && p.cmake == cmake && p.working_directory == working_directory
                    && p.verbose == verbose
            },
        },
{
    let name = match result.name {
        Some(n) => n,
        None => return Err(Error::PackageNotFound),
    };
    let found = match result.version {
        Some(s) => match Version::parse(s.as_str()) {
            Ok(v) => Some(v),
            Err(e) => return Err(Error::Version(e)),
        },
        None => None,
    };
    if let Some(req) = required {
        if let Some(v) = found {
            if let Ordering::Less = v.compare(&req) {
                return Err(Error::Version(VersionError::VersionTooOld(v)));
            }
        }
    }
    Ok(CMakePackage::new(cmake, working_directory, name, found, result.components, verbose))
}

} // verus!
