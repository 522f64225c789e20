//! Where command output goes and how it shows file-system paths.

use vstd::prelude::*;

use crate::terminal::set_terminal_uses_posix_paths;

verus! {

/// How file-system paths are shown: judged from the environment, or fixed
/// to the POSIX or the Windows style.
#[derive(Copy, Clone, Debug, PartialEq, Eq)]
pub enum PathOutputStyle {
    Auto,
    Posix,
    Windows,
}

/// The name of a path output style.
pub open spec fn spec_style_name(style: PathOutputStyle) -> Seq<char> {
    match style {
        PathOutputStyle::Auto => "auto"@,
        PathOutputStyle::Posix => "posix"@,
        PathOutputStyle::Windows => "windows"@,
    }
}

/// Whether a style fixes the use of POSIX paths, and to what.
pub open spec fn spec_fixed_posix(style: PathOutputStyle) -> Option<bool> {
    match style {
        PathOutputStyle::Auto => None,
        PathOutputStyle::Posix => Some(true),
        PathOutputStyle::Windows => Some(false),
    }
}

impl PathOutputStyle {
    /// The name of the style.
    pub fn as_str(&self) -> (name: &'static str)
        ensures
            name@ == spec_style_name(*self),
    {
        match self {
            PathOutputStyle::Auto => "auto",
            PathOutputStyle::Posix => "posix",
            PathOutputStyle::Windows => "windows",
        }
    }
}

/// Output options: a file to send output to (standard output when absent)
/// and the style file-system paths are shown in.
pub struct Output {
    pub output: Option<String>,
    pub path_style: PathOutputStyle,
}

impl Output {
    /// Settles the use of POSIX paths as the path style fixes it; the `Auto`
    /// style leaves it to be judged from the environment. A style that fixes
    /// it once it was settled is refused, as that is a programming error.
    pub fn configure_posix_paths(&self, setting: &mut Option<bool>)
        requires
            spec_fixed_posix(self.path_style) is Some ==> *old(setting) is None,
        ensures
            *final(setting) == match spec_fixed_posix(self.path_style) {
                Some(v) => Some(v),
                None => *old(setting),
            },
    {
        let fixed = match self.path_style {
            PathOutputStyle::Auto => None,
            PathOutputStyle::Posix => Some(true),
            PathOutputStyle::Windows => Some(false),
        };
        if let Some(terminal_uses_posix_paths) = fixed {
            let previous = set_terminal_uses_posix_paths(setting, terminal_uses_posix_paths);
            assert(previous is None);
        }
    }
}

} // verus!
