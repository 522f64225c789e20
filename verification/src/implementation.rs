//! The Python implementations a platform description can name.

use vstd::prelude::*;

use crate::error::PlatformError;
use crate::text;
use crate::text::{chars_eq_ignore_ascii_case, chars_of};

verus! {

/// The Python implementations a platform description can name.
#[derive(Copy, Clone, Debug, PartialEq, Eq)]
pub enum Implementation {
    CPython,
    PyPy,
}

/// The implementation that `s` names: `cpython` or `pypy`, in any ASCII case.
pub open spec fn spec_parse_implementation(s: Seq<char>) -> Option<Implementation> {
    if text::eq_ignore_ascii_case(s, seq!['c', 'p', 'y', 't', 'h', 'o', 'n']) {
        Some(Implementation::CPython)
    } else if text::eq_ignore_ascii_case(s, seq!['p', 'y', 'p', 'y']) {
        Some(Implementation::PyPy)
    } else {
        None
    }
}

impl Implementation {
    /// Parses an implementation name given as characters.
    pub fn parse_chars(s: &[char]) -> (res: Result<Implementation, PlatformError>)
        ensures
            match res {
                Ok(i) => spec_parse_implementation(s@) == Some(i),
                Err(e) => spec_parse_implementation(s@) is None && e == PlatformError::UnsupportedImplementation,
            },
    {
        let cpython = chars_of("cpython");
        let pypy = chars_of("pypy");
        proof {
            reveal_strlit("cpython");
            reveal_strlit("pypy");
            assert(cpython@ =~= seq!['c', 'p', 'y', 't', 'h', 'o', 'n']);
            assert(pypy@ =~= seq!['p', 'y', 'p', 'y']);
        }
        if chars_eq_ignore_ascii_case(s, cpython.as_slice()) {
            Ok(Implementation::CPython)
        } else if chars_eq_ignore_ascii_case(s, pypy.as_slice()) {
            Ok(Implementation::PyPy)
        } else {
            Err(PlatformError::UnsupportedImplementation)
        }
    }

    /// Parses an implementation name: `cpython` or `pypy`, in any ASCII case.
    pub fn parse(s: &str) -> (res: Result<Implementation, PlatformError>)
        ensures
            match res {
                Ok(i) => spec_parse_implementation(s@) == Some(i),
                Err(e) => spec_parse_implementation(s@) is None && e == PlatformError::UnsupportedImplementation,
            },
    {
        let chars = chars_of(s);
        Self::parse_chars(chars.as_slice())
    }
}

} // verus!
