//! Discovery of installed CMake packages and resolution of the build properties of their
//! targets.
//!
//! The library holds the logic: version numbers, the choice of build configuration, the
//! transitive resolution of a target's interface properties, the cargo directives that link
//! against a target, and the judgement of what a package query reported. Running CMake and
//! reading its answers is left to the caller.

pub mod configuration;
pub mod finder;
pub mod link;
pub mod package;
pub mod target;
pub mod version;

pub use configuration::{select_build_configuration, CMakeBuildType};
pub use finder::{find_package, FindPackageBuilder};
pub use package::{CMakePackage, CMakeProgram, Error, CMAKE_MIN_VERSION};
pub use target::{CMakeTarget, InterfaceProperty, Platform, PropertyValue, Target};
pub use version::{Version, VersionError};
