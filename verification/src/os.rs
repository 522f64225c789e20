//! Operating systems as a platform description names them.

use vstd::prelude::*;

use crate::error::PlatformError;
use crate::linux;
use crate::linux::LibcVersion;
use crate::mac;
use crate::mac::Release as MacRelease;
use crate::text;
use crate::text::{chars_of, is_word, strip_prefix};
use crate::windows;
use crate::windows::Release as WindowsRelease;

verus! {

/// The C library of a Linux platform and its version.
#[derive(Copy, Clone, Debug, PartialEq, Eq)]
pub enum Libc {
    Gnu(LibcVersion),
    Musl(LibcVersion),
}

/// An operating system and the release facts the platform tags depend on.
#[derive(Copy, Clone, Debug, PartialEq, Eq)]
pub enum Os {
    Linux(Libc),
    Mac(MacRelease),
    Windows(Option<WindowsRelease>),
}

/// The operating system that `s` names:
/// + `linux` (glibc 2.17), `macos` (11.3), `windows` (10);
/// + `macos_<major>_<minor>[_<patch>]`;
/// + `manylinux1`, `manylinux2010`, `manylinux2014`, `manylinux_<major>_<minor>`;
/// + `musllinux_<major>_<minor>`;
/// + `windows_<release>`.
pub open spec fn spec_parse_os(s: Seq<char>) -> Result<Os, PlatformError> {
    if s == "linux"@ {
        Ok(Os::Linux(Libc::Gnu(LibcVersion { major: 2, minor: 17 })))
    } else if s == "macos"@ {
        Ok(Os::Mac(MacRelease { major: 11, minor: 3, patch: None }))
    } else if s == "windows"@ {
        Ok(Os::Windows(Some(WindowsRelease::Windows10)))
    } else if text::has_prefix(s, "macos_"@) {
        match mac::spec_parse_release(s.skip("macos_"@.len() as int), '_') {
            Some(r) => Ok(Os::Mac(r)),
            None => Err(PlatformError::InvalidMacRelease),
        }
    } else if text::has_prefix(s, "manylinux"@) {
        let v = s.skip("manylinux"@.len() as int);
        if v == "1"@ {
            Ok(Os::Linux(Libc::Gnu(LibcVersion { major: 2, minor: 5 })))
        } else if v == "2010"@ {
            Ok(Os::Linux(Libc::Gnu(LibcVersion { major: 2, minor: 12 })))
        } else if v == "2014"@ {
            Ok(Os::Linux(Libc::Gnu(LibcVersion { major: 2, minor: 17 })))
        } else if text::has_prefix(v, "_"@) {
            match linux::spec_parse_libc_version(v.skip("_"@.len() as int), '_') {
                Some(l) => Ok(Os::Linux(Libc::Gnu(l))),
                None => Err(PlatformError::InvalidLibcVersion),
            }
        } else {
            Err(PlatformError::InvalidManylinux)
        }
    } else if text::has_prefix(s, "musllinux_"@) {
        match linux::spec_parse_libc_version(s.skip("musllinux_"@.len() as int), '_') {
            Some(l) => Ok(Os::Linux(Libc::Musl(l))),
            None => Err(PlatformError::InvalidLibcVersion),
        }
    } else if text::has_prefix(s, "windows_"@) {
        match windows::spec_parse_release(s.skip("windows_"@.len() as int)) {
            Some(r) => Ok(Os::Windows(Some(r))),
            None => Err(PlatformError::InvalidWindowsRelease),
        }
    } else {
        Err(PlatformError::UnsupportedOs)
    }
}

/// The name of an operating system.
pub open spec fn spec_os_name(os: Os) -> Seq<char> {
    match os {
        Os::Linux(_) => "linux"@,
        Os::Mac(_) => "macos"@,
        Os::Windows(_) => "windows"@,
    }
}

impl Os {
    /// The name of the operating system.
    pub fn name(&self) -> (name: &'static str)
        ensures
            name@ == spec_os_name(*self),
    {
        match self {
            Os::Linux(_) => "linux",
            Os::Mac(_) => "macos",
            Os::Windows(_) => "windows",
        }
    }

    /// Parses an operating system name given as characters.
    pub fn parse_chars(s: &[char]) -> (res: Result<Os, PlatformError>)
        ensures
            res == spec_parse_os(s@),
    {
        if is_word(s, "linux") {
            return Ok(Os::Linux(Libc::Gnu(LibcVersion::new(2, 17))));
        }
        if is_word(s, "macos") {
            return Ok(Os::Mac(MacRelease::new(11, 3)));
        }
        if is_word(s, "windows") {
            return Ok(Os::Windows(Some(WindowsRelease::Windows10)));
        }
        if let Some(version) = strip_prefix(s, "macos_") {
            return match MacRelease::parse_chars(version.as_slice(), '_') {
                Ok(r) => Ok(Os::Mac(r)),
                Err(_) => Err(PlatformError::InvalidMacRelease),
            };
        }
        if let Some(version) = strip_prefix(s, "manylinux") {
            if is_word(version.as_slice(), "1") {
                return Ok(Os::Linux(Libc::Gnu(LibcVersion::new(2, 5))));
            }
            if is_word(version.as_slice(), "2010") {
                return Ok(Os::Linux(Libc::Gnu(LibcVersion::new(2, 12))));
            }
            if is_word(version.as_slice(), "2014") {
                return Ok(Os::Linux(Libc::Gnu(LibcVersion::new(2, 17))));
            }
            if let Some(glibc_version) = strip_prefix(version.as_slice(), "_") {
                return match LibcVersion::parse_chars(glibc_version.as_slice(), '_') {
                    Ok(l) => Ok(Os::Linux(Libc::Gnu(l))),
                    Err(_) => Err(PlatformError::InvalidLibcVersion),
                };
            }
            return Err(PlatformError::InvalidManylinux);
        }
        if let Some(version) = strip_prefix(s, "musllinux_") {
            return match LibcVersion::parse_chars(version.as_slice(), '_') {
                Ok(l) => Ok(Os::Linux(Libc::Musl(l))),
                Err(_) => Err(PlatformError::InvalidLibcVersion),
            };
        }
        if let Some(release) = strip_prefix(s, "windows_") {
            return match WindowsRelease::parse_chars(release.as_slice()) {
                Ok(r) => Ok(Os::Windows(Some(r))),
                Err(_) => Err(PlatformError::InvalidWindowsRelease),
            };
        }
        Err(PlatformError::UnsupportedOs)
    }

    /// Parses an operating system name, e.g. `linux`, `macos_10_15` or
    /// `manylinux_2_28`.
    pub fn parse(s: &str) -> (res: Result<Os, PlatformError>)
        ensures
            res == spec_parse_os(s@),
    {
        let chars = chars_of(s);
        Self::parse_chars(chars.as_slice())
    }
}

} // verus!
