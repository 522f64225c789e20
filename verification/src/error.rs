//! Why a platform description or one of its parts was refused.

use vstd::prelude::*;

use crate::version::VersionError;

verus! {

/// Why a platform description or one of its parts was refused.
#[derive(Copy, Clone, Debug, PartialEq, Eq)]
pub enum PlatformError {
    /// The Python version part was refused.
    Version(VersionError),
    /// Not `cpython` or `pypy` (in any ASCII case).
    UnsupportedImplementation,
    /// Not a recognised chip architecture name.
    UnsupportedArch,
    /// A macOS release that is not `<major><sep><minor>[<sep><patch>]`.
    InvalidMacRelease,
    /// A C library version that is not `<major><sep><minor>`.
    InvalidLibcVersion,
    /// A `manylinux` suffix that is not `1`, `2010`, `2014` or `_<major>_<minor>`.
    InvalidManylinux,
    /// Not a recognised Windows release name.
    InvalidWindowsRelease,
    /// Not a recognised operating system name.
    UnsupportedOs,
    /// An architecture other than arm64 or x86_64 for macOS.
    UnsupportedMacArch,
    /// An architecture other than arm64 or x86_64 for Windows.
    UnsupportedWindowsArch,
    /// An implementation name with no version after it.
    MissingVersion,
    /// More components than `<implementation>-<version>-<os>-<arch>`.
    TooManyComponents,
    /// The host platform was needed but could not be determined.
    UnknownHost,
    /// A version marker that the `pep440_rs` crate does not accept.
    InvalidMarkerVersion,
    /// No supported wheel tags.
    NoSupportedTags,
}

} // verus!
