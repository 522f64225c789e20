//! Windows releases.

use vstd::prelude::*;

use crate::error::PlatformError;
use crate::text;
use crate::text::{chars_of, is_word_ignore_ascii_case};

verus! {

/// A Windows release, workstation or server, newest first within each kind.
#[derive(Copy, Clone, Debug, PartialEq, Eq)]
pub enum Release {
    Post11,
    Windows11,
    Windows10,
    Windows8_1,
    Windows8,
    Windows7,
    Vista,
    XP64,
    XPMedia,
    XP,
    Windows2000,
    Post2025Server,
    Windows2025Server,
    Windows2022Server,
    Windows2019Server,
    Windows2016Server,
    Windows2012ServerR2,
    Windows2012Server,
    Windows2008ServerR2,
    Windows2008Server,
    Windows2003Server,
    Windows2000Server,
}

/// The name of a Windows release.
pub open spec fn spec_release_str(release: Release) -> Seq<char> {
    match release {
        Release::Post11 => "post11"@,
        Release::Windows11 => "11"@,
        Release::Windows10 => "10"@,
        Release::Windows8_1 => "8.1"@,
        Release::Windows8 => "8"@,
        Release::Windows7 => "7"@,
        Release::Vista => "Vista"@,
        Release::XP64 => "XP64"@,
        Release::XPMedia => "XPMedia"@,
        Release::XP => "XP"@,
        Release::Windows2000 => "2000"@,
        Release::Post2025Server => "post2025Server"@,
        Release::Windows2025Server => "2025Server"@,
        Release::Windows2022Server => "2022Server"@,
        Release::Windows2019Server => "2019Server"@,
        Release::Windows2016Server => "2016Server"@,
        Release::Windows2012ServerR2 => "2012ServerR2"@,
        Release::Windows2012Server => "2012Server"@,
        Release::Windows2008ServerR2 => "2008ServerR2"@,
        Release::Windows2008Server => "2008Server"@,
        Release::Windows2003Server => "2003Server"@,
        Release::Windows2000Server => "2000Server"@,
    }
}

/// The release that `s` names, compared without ASCII case, the first match
/// in declaration order.
pub open spec fn spec_parse_release(s: Seq<char>) -> Option<Release> {
    if text::eq_ignore_ascii_case(s, "post11"@) {
        Some(Release::Post11)
    } else if text::eq_ignore_ascii_case(s, "11"@) {
        Some(Release::Windows11)
    } else if text::eq_ignore_ascii_case(s, "10"@) {
        Some(Release::Windows10)
    } else if text::eq_ignore_ascii_case(s, "8.1"@) {
        Some(Release::Windows8_1)
    } else if text::eq_ignore_ascii_case(s, "8"@) {
        Some(Release::Windows8)
    } else if text::eq_ignore_ascii_case(s, "7"@) {
        Some(Release::Windows7)
    } else if text::eq_ignore_ascii_case(s, "Vista"@) {
        Some(Release::Vista)
    } else if text::eq_ignore_ascii_case(s, "XP64"@) {
        Some(Release::XP64)
    } else if text::eq_ignore_ascii_case(s, "XPMedia"@) {
        Some(Release::XPMedia)
    } else if text::eq_ignore_ascii_case(s, "XP"@) {
        Some(Release::XP)
    } else if text::eq_ignore_ascii_case(s, "2000"@) {
        Some(Release::Windows2000)
    } else if text::eq_ignore_ascii_case(s, "post2025Server"@) {
        Some(Release::Post2025Server)
    } else if text::eq_ignore_ascii_case(s, "2025Server"@) {
        Some(Release::Windows2025Server)
    } else if text::eq_ignore_ascii_case(s, "2022Server"@) {
        Some(Release::Windows2022Server)
    } else if text::eq_ignore_ascii_case(s, "2019Server"@) {
        Some(Release::Windows2019Server)
    } else if text::eq_ignore_ascii_case(s, "2016Server"@) {
        Some(Release::Windows2016Server)
    } else if text::eq_ignore_ascii_case(s, "2012ServerR2"@) {
        Some(Release::Windows2012ServerR2)
    } else if text::eq_ignore_ascii_case(s, "2012Server"@) {
        Some(Release::Windows2012Server)
    } else if text::eq_ignore_ascii_case(s, "2008ServerR2"@) {
        Some(Release::Windows2008ServerR2)
    } else if text::eq_ignore_ascii_case(s, "2008Server"@) {
        Some(Release::Windows2008Server)
    } else if text::eq_ignore_ascii_case(s, "2003Server"@) {
        Some(Release::Windows2003Server)
    } else if text::eq_ignore_ascii_case(s, "2000Server"@) {
        Some(Release::Windows2000Server)
    } else {
        None
    }
}

impl Release {
    /// The name of the release.
    pub fn as_str(&self) -> (name: &'static str)
        ensures
            name@ == spec_release_str(*self),
    {
        match self {
            Release::Post11 => "post11",
            Release::Windows11 => "11",
            Release::Windows10 => "10",
            Release::Windows8_1 => "8.1",
            Release::Windows8 => "8",
            Release::Windows7 => "7",
            Release::Vista => "Vista",
            Release::XP64 => "XP64",
            Release::XPMedia => "XPMedia",
            Release::XP => "XP",
            Release::Windows2000 => "2000",
            Release::Post2025Server => "post2025Server",
            Release::Windows2025Server => "2025Server",
            Release::Windows2022Server => "2022Server",
            Release::Windows2019Server => "2019Server",
            Release::Windows2016Server => "2016Server",
            Release::Windows2012ServerR2 => "2012ServerR2",
            Release::Windows2012Server => "2012Server",
            Release::Windows2008ServerR2 => "2008ServerR2",
            Release::Windows2008Server => "2008Server",
            Release::Windows2003Server => "2003Server",
            Release::Windows2000Server => "2000Server",
        }
    }

    /// Parses a release name given as characters.
    pub fn parse_chars(s: &[char]) -> (res: Result<Release, PlatformError>)
        ensures
            match res {
                Ok(r) => spec_parse_release(s@) == Some(r),
                Err(e) => spec_parse_release(s@) is None && e == PlatformError::InvalidWindowsRelease,
            },
    {
        if is_word_ignore_ascii_case(s, "post11") {
            Ok(Release::Post11)
        } else if is_word_ignore_ascii_case(s, "11") {
            Ok(Release::Windows11)
        } else if is_word_ignore_ascii_case(s, "10") {
            Ok(Release::Windows10)
        } else if is_word_ignore_ascii_case(s, "8.1") {
            Ok(Release::Windows8_1)
        } else if is_word_ignore_ascii_case(s, "8") {
            Ok(Release::Windows8)
        } else if is_word_ignore_ascii_case(s, "7") {
            Ok(Release::Windows7)
        } else if is_word_ignore_ascii_case(s, "Vista") {
            Ok(Release::Vista)
        } else if is_word_ignore_ascii_case(s, "XP64") {
            Ok(Release::XP64)
        } else if is_word_ignore_ascii_case(s, "XPMedia") {
            Ok(Release::XPMedia)
        } else if is_word_ignore_ascii_case(s, "XP") {
            Ok(Release::XP)
        } else if is_word_ignore_ascii_case(s, "2000") {
            Ok(Release::Windows2000)
        } else if is_word_ignore_ascii_case(s, "post2025Server") {
            Ok(Release::Post2025Server)
        } else if is_word_ignore_ascii_case(s, "2025Server") {
            Ok(Release::Windows2025Server)
        } else if is_word_ignore_ascii_case(s, "2022Server") {
            Ok(Release::Windows2022Server)
        } else if is_word_ignore_ascii_case(s, "2019Server") {
            Ok(Release::Windows2019Server)
        } else if is_word_ignore_ascii_case(s, "2016Server") {
            Ok(Release::Windows2016Server)
        } else if is_word_ignore_ascii_case(s, "2012ServerR2") {
            Ok(Release::Windows2012ServerR2)
        } else if is_word_ignore_ascii_case(s, "2012Server") {
            Ok(Release::Windows2012Server)
        } else if is_word_ignore_ascii_case(s, "2008ServerR2") {
            Ok(Release::Windows2008ServerR2)
        } else if is_word_ignore_ascii_case(s, "2008Server") {
            Ok(Release::Windows2008Server)
        } else if is_word_ignore_ascii_case(s, "2003Server") {
            Ok(Release::Windows2003Server)
        } else if is_word_ignore_ascii_case(s, "2000Server") {
            Ok(Release::Windows2000Server)
        } else {
            Err(PlatformError::InvalidWindowsRelease)
        }
    }

    /// Parses a release name, compared without ASCII case (e.g. `10`, `vista`).
    pub fn parse(s: &str) -> (res: Result<Release, PlatformError>)
        ensures
            match res {
                Ok(r) => spec_parse_release(s@) == Some(r),
                Err(e) => spec_parse_release(s@) is None && e == PlatformError::InvalidWindowsRelease,
            },
    {
        let chars = chars_of(s);
        Self::parse_chars(chars.as_slice())
    }
}

} // verus!
