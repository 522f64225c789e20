//! Platforms: an operating system on a chip architecture.

use vstd::prelude::*;

use crate::arch::Arch;
use crate::error::PlatformError;
use crate::mac::Release as MacRelease;
use crate::os::{Libc, Os};
use crate::windows::Release as WindowsRelease;

verus! {

/// A Linux platform.
#[derive(Copy, Clone, Debug, PartialEq, Eq)]
pub struct Linux {
    pub arch: Arch,
    pub libc: Libc,
}

/// A macOS platform.
#[derive(Copy, Clone, Debug, PartialEq, Eq)]
pub struct Mac {
    pub arm64: bool,
    pub release: MacRelease,
}

/// A Windows platform.
#[derive(Copy, Clone, Debug, PartialEq, Eq)]
pub struct Windows {
    pub arm64: bool,
    pub release: Option<WindowsRelease>,
}

/// A platform.
#[derive(Copy, Clone, Debug, PartialEq, Eq)]
pub enum Platform {
    Linux(Linux),
    Mac(Mac),
    Windows(Windows),
}

/// The platform of an operating system on an architecture: any architecture
/// on Linux, only arm64 or x86_64 on macOS and Windows.
pub open spec fn spec_from_parts(os: Os, arch: Arch) -> Result<Platform, PlatformError> {
    match os {
        Os::Linux(libc) => Ok(Platform::Linux(Linux { arch, libc })),
        Os::Mac(release) => match arch {
            Arch::Arm64 => Ok(Platform::Mac(Mac { arm64: true, release })),
            Arch::X64 => Ok(Platform::Mac(Mac { arm64: false, release })),
            _ => Err(PlatformError::UnsupportedMacArch),
        },
        Os::Windows(release) => match arch {
            Arch::Arm64 => Ok(Platform::Windows(Windows { arm64: true, release })),
            Arch::X64 => Ok(Platform::Windows(Windows { arm64: false, release })),
            _ => Err(PlatformError::UnsupportedWindowsArch),
        },
    }
}

impl Platform {
    /// The platform of `os` on `arch`.
    pub fn from_parts(os: Os, arch: Arch) -> (res: Result<Platform, PlatformError>)
        ensures
            res == spec_from_parts(os, arch),
    {
        match os {
            Os::Linux(libc) => Ok(Platform::Linux(Linux { arch, libc })),
            Os::Mac(release) => match arch {
                Arch::Arm64 => Ok(Platform::Mac(Mac { arm64: true, release })),
                Arch::X64 => Ok(Platform::Mac(Mac { arm64: false, release })),
                _ => Err(PlatformError::UnsupportedMacArch),
            },
            Os::Windows(release) => match arch {
                Arch::Arm64 => Ok(Platform::Windows(Windows { arm64: true, release })),
                Arch::X64 => Ok(Platform::Windows(Windows { arm64: false, release })),
                _ => Err(PlatformError::UnsupportedWindowsArch),
            },
        }
    }
}

} // verus!
