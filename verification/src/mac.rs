//! macOS releases.

use vstd::prelude::*;

use crate::error::PlatformError;
use crate::text;
use crate::text::{chars_of, find_char_at, parse_uint, sub_chars};

verus! {

/// A macOS release: `<major>.<minor>[.<patch>]`.
#[derive(Copy, Clone, Debug, PartialEq, Eq, PartialOrd, Ord)]
pub struct Release {
    pub major: u16,
    pub minor: u8,
    pub patch: Option<u8>,
}

/// Whether release `a` comes before `b`: major, minor, then patch, with an
/// absent patch before any present one.
pub open spec fn release_lt(a: Release, b: Release) -> bool {
    if a.major != b.major {
        a.major < b.major
    } else if a.minor != b.minor {
        a.minor < b.minor
    } else {
        match (a.patch, b.patch) {
            (None, Some(_)) => true,
            (Some(x), Some(y)) => x < y,
            _ => false,
        }
    }
}

/// The macOS release that `s` denotes with `sep` between its numbers:
/// `<major><sep><minor>[<sep><patch>]`, the major number fitting 16 bits and the
/// others a byte, each `str::parse` style.
pub open spec fn spec_parse_release(s: Seq<char>, sep: char) -> Option<Release> {
    let (c0, r0) = text::split_first(s, sep);
    match (text::spec_parse_uint(c0, 65535), r0) {
        (Some(major), Some(r)) => {
            let (c1, r1) = text::split_first(r, sep);
            match text::spec_parse_uint(c1, 255) {
                None => None,
                Some(minor) => match r1 {
                    None => Some(Release { major: major as u16, minor: minor as u8, patch: None }),
                    Some(p) => match text::spec_parse_uint(p, 255) {
                        Some(patch) => Some(
                            Release { major: major as u16, minor: minor as u8, patch: Some(patch as u8) },
                        ),
                        None => None,
                    },
                },
            }
        },
        _ => None,
    }
}

impl Release {
    /// The release `<major>.<minor>` with no patch number.
    pub fn new(major: u16, minor: u8) -> (r: Release)
        ensures
            r == (Release { major, minor, patch: None }),
    {
        Release { major, minor, patch: None }
    }

    /// Whether `self` comes before `other`.
    pub fn precedes(&self, other: &Release) -> (res: bool)
        ensures
            res == release_lt(*self, *other),
    {
        if self.major != other.major {
            self.major < other.major
        } else if self.minor != other.minor {
            self.minor < other.minor
        } else {
            match (self.patch, other.patch) {
                (None, Some(_)) => true,
                (Some(x), Some(y)) => x < y,
                _ => false,
            }
        }
    }

    /// Parses a release given as characters with `sep` between its numbers.
    pub fn parse_chars(s: &[char], sep: char) -> (res: Result<Release, PlatformError>)
        ensures
            match res {
                Ok(r) => spec_parse_release(s@, sep) == Some(r),
                Err(e) => spec_parse_release(s@, sep) is None && e == PlatformError::InvalidMacRelease,
            },
    {
        assert(s@.subrange(0, s@.len() as int) =~= s@);
        let i = match find_char_at(s, 0, sep) {
            Some(i) => i,
            None => {
                return Err(PlatformError::InvalidMacRelease);
            },
        };
        let major_chars = sub_chars(s, 0, i);
        assert(major_chars@ =~= s@.take(i as int));
        let major = match parse_uint(&major_chars, 65535) {
            Some(m) => m as u16,
            None => {
                return Err(PlatformError::InvalidMacRelease);
            },
        };
        let start = i + 1;
        let ghost r = s@.skip(i + 1);
        assert(r =~= s@.subrange(start as int, s@.len() as int));
        match find_char_at(s, start, sep) {
            Some(j) => {
                let minor_chars = sub_chars(s, start, j);
                let patch_chars = sub_chars(s, j + 1, s.len());
                assert(minor_chars@ =~= r.take((j - start) as int));
                assert(patch_chars@ =~= r.skip((j - start) + 1));
                let minor = match parse_uint(&minor_chars, 255) {
                    Some(m) => m as u8,
                    None => {
                        return Err(PlatformError::InvalidMacRelease);
                    },
                };
                match parse_uint(&patch_chars, 255) {
                    Some(p) => Ok(Release { major, minor, patch: Some(p as u8) }),
                    None => Err(PlatformError::InvalidMacRelease),
                }
            },
            None => {
                let minor_chars = sub_chars(s, start, s.len());
                match parse_uint(&minor_chars, 255) {
                    Some(m) => Ok(Release { major, minor: m as u8, patch: None }),
                    None => Err(PlatformError::InvalidMacRelease),
                }
            },
        }
    }

    /// Parses a release with `sep` between its numbers, e.g. `11.3` or `10_15_7`.
    pub fn parse(value: &str, sep: char) -> (res: Result<Release, PlatformError>)
        ensures
            match res {
                Ok(r) => spec_parse_release(value@, sep) == Some(r),
                Err(e) => spec_parse_release(value@, sep) is None && e == PlatformError::InvalidMacRelease,
            },
    {
        let chars = chars_of(value);
        Self::parse_chars(chars.as_slice(), sep)
    }
}

} // verus!
