//! C library versions of Linux platforms.

use vstd::prelude::*;

use crate::error::PlatformError;
use crate::text;
use crate::text::{chars_of, find_char_at, parse_uint, sub_chars};

verus! {

/// A glibc or musl version: `<major>.<minor>`.
#[derive(Copy, Clone, Debug, PartialEq, Eq, PartialOrd, Ord)]
pub struct LibcVersion {
    pub major: u8,
    pub minor: u8,
}

/// Whether version `a` is at most `b`, comparing major then minor.
pub open spec fn libc_le(a: LibcVersion, b: LibcVersion) -> bool {
    a.major < b.major || (a.major == b.major && a.minor <= b.minor)
}

/// The version that `s` denotes with `sep` between its two numbers, each a
/// byte-sized number `str::parse` style.
pub open spec fn spec_parse_libc_version(s: Seq<char>, sep: char) -> Option<LibcVersion> {
    let (c0, r0) = text::split_first(s, sep);
    match (text::spec_parse_uint(c0, 255), r0) {
        (Some(major), Some(r)) => match text::spec_parse_uint(r, 255) {
            Some(minor) => Some(LibcVersion { major: major as u8, minor: minor as u8 }),
            None => None,
        },
        _ => None,
    }
}

impl LibcVersion {
    /// The version `<major>.<minor>`.
    pub fn new(major: u8, minor: u8) -> (v: LibcVersion)
        ensures
            v == (LibcVersion { major, minor }),
    {
        LibcVersion { major, minor }
    }

    /// Whether `self` is at most `other`.
    pub fn at_most(&self, other: &LibcVersion) -> (res: bool)
        ensures
            res == libc_le(*self, *other),
    {
        self.major < other.major || (self.major == other.major && self.minor <= other.minor)
    }

    /// Parses a version given as characters with `sep` between its numbers.
    pub fn parse_chars(s: &[char], sep: char) -> (res: Result<LibcVersion, PlatformError>)
        ensures
            match res {
                Ok(v) => spec_parse_libc_version(s@, sep) == Some(v),
                Err(e) => spec_parse_libc_version(s@, sep) is None && e == PlatformError::InvalidLibcVersion,
            },
    {
        assert(s@.subrange(0, s@.len() as int) =~= s@);
        let i = match find_char_at(s, 0, sep) {
            Some(i) => i,
            None => {
                return Err(PlatformError::InvalidLibcVersion);
            },
        };
        let major_chars = sub_chars(s, 0, i);
        let minor_chars = sub_chars(s, i + 1, s.len());
        assert(major_chars@ =~= s@.take(i as int));
        assert(minor_chars@ =~= s@.skip(i + 1));
        match (parse_uint(&major_chars, 255), parse_uint(&minor_chars, 255)) {
            (Some(major), Some(minor)) => Ok(LibcVersion { major: major as u8, minor: minor as u8 }),
            _ => Err(PlatformError::InvalidLibcVersion),
        }
    }

    /// Parses a version with `sep` between its numbers, e.g. `2_17`.
    pub fn parse(value: &str, sep: char) -> (res: Result<LibcVersion, PlatformError>)
        ensures
            match res {
                Ok(v) => spec_parse_libc_version(value@, sep) == Some(v),
                Err(e) => spec_parse_libc_version(value@, sep) is None && e == PlatformError::InvalidLibcVersion,
            },
    {
        let chars = chars_of(value);
        Self::parse_chars(chars.as_slice(), sep)
    }
}

} // verus!
