//! The build tools a PEX runtime controller build needs and where they are
//! installed.

use vstd::prelude::*;
use vstd::string::StringExecFns;

use crate::text::{chars_of, dec, push_decimal, spec_trim, split_all, split_chars, string_of, trim};

verus! {

/// A tool that was found: the environment variable that points the build at
/// it, and its path.
pub struct FoundTool {
    pub env_var: String,
    pub path: String,
}

/// Whether `c` is a separator the platform may use between path
/// components: `/`, or a backslash on Windows.
pub open spec fn is_separator_choice(c: char) -> bool {
    c == '/' || c == '\\'
}

/// `std::path::MAIN_SEPARATOR`: the separator of path components on the
/// platform the code runs on, `/` or a backslash. Which of the two is not stated:
/// it depends on the machine.
#[verifier::external_body]
pub(crate) fn path_separator() -> (c: char)
    ensures
        is_separator_choice(c),
{
    std::path::MAIN_SEPARATOR
}

/// `base` joined with the relative path `name` as `Path::join` does with
/// the separator `sep`: `name` when `base` is empty, else `base`, `sep`
/// unless `base` ends with a separator (`/` or `sep`), and `name`.
pub open spec fn spec_join(base: Seq<char>, name: Seq<char>, sep: char) -> Seq<char> {
    if base.len() == 0 {
        name
    } else if base.last() == '/' || base.last() == sep {
        base + name
    } else {
        base + seq![sep] + name
    }
}

/// Joins the relative path `name` to `base` with the separator `sep`, as
/// [`spec_join`] describes.
pub fn join(base: &str, name: &str, sep: char) -> (s: String)
    ensures
        s@ == spec_join(base@, name@, sep),
{
    let chars = crate::text::chars_of(base);
    let mut s = String::from_str(base);
    if chars.len() > 0 && chars[chars.len() - 1] != '/' && chars[chars.len() - 1] != sep {
        crate::text::push_char(&mut s, sep);
    }
    s.append(name);
    s
}

/// The directories tools are installed in, under one cache directory:
/// `bin`, `data` and `downloads`.
pub struct InstallDirs {
    pub bin_dir: String,
    pub data_dir: String,
    pub download_dir: String,
}

impl InstallDirs {
    /// The install directories under `cache_dir`, joined with the
    /// platform's path separator.
    pub fn new(cache_dir: &str) -> (dirs: InstallDirs)
        ensures
            exists|sep: char|
                #[trigger] is_separator_choice(sep) && dirs.bin_dir@ == spec_join(cache_dir@, "bin"@, sep)
                    && dirs.data_dir@ == spec_join(cache_dir@, "data"@, sep) && dirs.download_dir@ == spec_join(
                    cache_dir@,
                    "downloads"@,
                    sep,
                ),
    {
        let sep = path_separator();
        let dirs = InstallDirs {
            bin_dir: join(cache_dir, "bin", sep),
            data_dir: join(cache_dir, "data", sep),
            download_dir: join(cache_dir, "downloads", sep),
        };
        assert(is_separator_choice(sep));
        dirs
    }
}

/// A tool installed with `cargo binstall`.
#[derive(Copy, Clone, Debug, PartialEq, Eq)]
pub enum BinstallTool {
    CargoZigbuild,
    Uv,
}

/// The binary name of a tool.
pub open spec fn spec_binary_name(tool: BinstallTool) -> Seq<char> {
    match tool {
        BinstallTool::CargoZigbuild => "cargo-zigbuild"@,
        BinstallTool::Uv => "uv"@,
    }
}

/// The oldest version of a tool that the build accepts.
pub open spec fn spec_min_version(tool: BinstallTool) -> (u64, u64, u64) {
    match tool {
        BinstallTool::CargoZigbuild => (0, 23, 0),
        BinstallTool::Uv => (0, 12, 2),
    }
}

/// The `cargo binstall` specification of a tool: `<name>@>=<min version>`.
pub open spec fn spec_binstall_spec(tool: BinstallTool) -> Seq<char> {
    let (major, minor, patch) = spec_min_version(tool);
    spec_binary_name(tool) + "@>="@ + dec(major as nat) + "."@ + dec(minor as nat) + "."@ + dec(
        patch as nat,
    )
}

impl BinstallTool {
    /// Every tool, in declaration order.
    pub fn all() -> (tools: Vec<BinstallTool>)
        ensures
            tools@ == seq![BinstallTool::CargoZigbuild, BinstallTool::Uv],
    {
        vec![BinstallTool::CargoZigbuild, BinstallTool::Uv]
    }

    /// The binary name of the tool.
    pub fn binary_name(&self) -> (s: &'static str)
        ensures
            s@ == spec_binary_name(*self),
    {
        match *self {
            BinstallTool::CargoZigbuild => "cargo-zigbuild",
            BinstallTool::Uv => "uv",
        }
    }

    /// The oldest accepted version of the tool, as major, minor and patch.
    pub fn min_version(&self) -> (v: (u64, u64, u64))
        ensures
            v == spec_min_version(*self),
    {
        match *self {
            BinstallTool::CargoZigbuild => (0, 23, 0),
            BinstallTool::Uv => (0, 12, 2),
        }
    }

    /// The `cargo binstall` specification of the tool, e.g.
    /// `cargo-zigbuild@>=0.23.0`.
    pub fn spec(&self) -> (s: String)
        ensures
            s@ == spec_binstall_spec(*self),
    {
        let (major, minor, patch) = self.min_version();
        let mut s = String::from_str(self.binary_name());
        s.append("@>=");
        push_decimal(&mut s, major);
        s.append(".");
        push_decimal(&mut s, minor);
        s.append(".");
        push_decimal(&mut s, patch);
        s
    }
}

/// Whether the wanted version of zig was found, and where; else the version
/// to install.
pub enum Zig {
    Found(FoundTool),
    MissingVersion(String),
}

impl Zig {
    /// Whether zig was found.
    pub fn found(&self) -> (res: bool)
        ensures
            res == self is Found,
    {
        match self {
            Zig::Found(_) => true,
            Zig::MissingVersion(_) => false,
        }
    }

    /// The version of zig to install, when it was not found.
    pub fn missing_version(&self) -> (res: Option<&str>)
        ensures
            match self {
                Zig::Found(_) => res is None,
                Zig::MissingVersion(v) => res matches Some(r) && r@ == v@,
            },
    {
        match self {
            Zig::Found(_) => None,
            Zig::MissingVersion(version) => Some(version.as_str()),
        }
    }
}

/// A semantic version as the `semver` crate reads it: major, minor and
/// patch numbers and the pre-release part (empty for a release).
#[derive(Clone, Debug, PartialEq, Eq)]
pub struct SemVer {
    pub major: u64,
    pub minor: u64,
    pub patch: u64,
    pub pre: String,
}

/// What the `semver` crate makes of `s` as a version: its major, minor and
/// patch numbers and its pre-release part; `None` where it refuses `s`.
pub uninterp spec fn semver_parse(s: Seq<char>) -> Option<(u64, u64, u64, Seq<char>)>;

/// `semver::Version::parse`, with the version taken apart (its build
/// metadata, which plays no part in what follows, left out).
#[verifier::external_body]
fn parse_semver(s: &str) -> (res: Option<SemVer>)
    ensures
        match res {
            Some(v) => semver_parse(s@) == Some((v.major, v.minor, v.patch, v.pre@)),
            None => semver_parse(s@) is None,
        },
{
    match semver::Version::parse(s) {
        Ok(v) => Some(SemVer { major: v.major, minor: v.minor, patch: v.patch, pre: v.pre.as_str().to_string() }),
        Err(_) => None,
    }
}

/// Why a tool's version was refused.
#[derive(Clone, Debug, PartialEq, Eq)]
pub enum VersionCheckError {
    /// The output of `<tool> -V` has no second space-separated word.
    NoVersion,
    /// The `semver` crate refuses the version text.
    InvalidVersion,
    /// The version is older than the tool's minimum.
    TooOld(SemVer),
}

/// The version word of a tool's `-V` output: its second space-separated
/// word.
pub open spec fn spec_version_word(output: Seq<char>) -> Option<Seq<char>> {
    let words = split_all(output, ' ');
    if words.len() >= 2 {
        Some(words[1])
    } else {
        None
    }
}

/// Whether a version is at least the release `min`, as `semver` orders
/// versions: a greater release number, or the same one and no pre-release
/// part (a pre-release comes before its release).
pub open spec fn spec_at_least(v: (u64, u64, u64, Seq<char>), min: (u64, u64, u64)) -> bool {
    ||| v.0 > min.0
    ||| v.0 == min.0 && v.1 > min.1
    ||| v.0 == min.0 && v.1 == min.1 && v.2 > min.2
    ||| v.0 == min.0 && v.1 == min.1 && v.2 == min.2 && v.3.len() == 0
}

/// What checking a tool's `-V` output finds.
pub enum CheckedVersion {
    /// No version word.
    NoVersion,
    /// A version word that is not a version.
    InvalidVersion,
    /// A version older than the tool's minimum.
    TooOld(u64, u64, u64, Seq<char>),
    /// A version at least the tool's minimum.
    Accepted(u64, u64, u64, Seq<char>),
}

/// The version a tool reports on its `-V` output, checked against the
/// tool's minimum: the version word, trimmed and read by `semver`.
pub open spec fn spec_check_version(tool: BinstallTool, output: Seq<char>) -> CheckedVersion {
    match spec_version_word(output) {
        None => CheckedVersion::NoVersion,
        Some(w) => match semver_parse(spec_trim(w)) {
            None => CheckedVersion::InvalidVersion,
            Some(v) => if spec_at_least(v, spec_min_version(tool)) {
                CheckedVersion::Accepted(v.0, v.1, v.2, v.3)
            } else {
                CheckedVersion::TooOld(v.0, v.1, v.2, v.3)
            },
        },
    }
}

impl BinstallTool {
    /// The version a tool reports on its `-V` output, as
    /// [`spec_check_version`] reads and checks it.
    pub fn check_version_output(&self, output: &str) -> (res: Result<SemVer, VersionCheckError>)
        ensures
            match spec_check_version(*self, output@) {
                CheckedVersion::Accepted(a, b, c, p) => res matches Ok(s) && s.major == a && s.minor == b
                    && s.patch == c && s.pre@ == p,
                CheckedVersion::TooOld(a, b, c, p) => res matches Err(VersionCheckError::TooOld(s)) && s.major
                    == a && s.minor == b && s.patch == c && s.pre@ == p,
                CheckedVersion::NoVersion => res == Err::<SemVer, VersionCheckError>(VersionCheckError::NoVersion),
                CheckedVersion::InvalidVersion => res == Err::<SemVer, VersionCheckError>(
                    VersionCheckError::InvalidVersion,
                ),
            },
    {
        let chars = chars_of(output);
        let words = split_chars(chars.as_slice(), ' ');
        if words.len() < 2 {
            return Err(VersionCheckError::NoVersion);
        }
        assert(crate::text::char_seqs(words@)[1] == words@[1]@);
        let word = trim(words[1].as_slice());
        let text = string_of(word.as_slice());
        match parse_semver(text.as_str()) {
            None => Err(VersionCheckError::InvalidVersion),
            Some(v) => {
                let (major, minor, patch) = self.min_version();
                let pre_empty = v.pre.as_str().unicode_len() == 0;
                let at_least = v.major > major || (v.major == major && v.minor > minor) || (v.major == major
                    && v.minor == minor && v.patch > patch) || (v.major == major && v.minor == minor && v.patch
                    == patch && pre_empty);
                if at_least {
                    Ok(v)
                } else {
                    Err(VersionCheckError::TooOld(v))
                }
            },
        }
    }
}


/// The kind of a Rust build target: Apple, another Unix, Windows, or Linux
/// with the GNU C library (whose builds pin a glibc version).
#[derive(Copy, Clone, Debug, PartialEq, Eq)]
pub enum TargetKind {
    Apple,
    Unix,
    Windows,
    GnuLinux,
}

/// A Rust build target: its triple, its kind, and for GNU Linux the target
/// `cargo zigbuild` builds for, `<triple>.<glibc version>`.
pub struct BuildTarget {
    pub target: String,
    pub kind: TargetKind,
    pub zigbuild: Option<String>,
}

/// What `cargo zigbuild` builds for a target of kind `kind` with triple
/// `triple`, given the glibc version pinned for it: the triple with the
/// glibc version for GNU Linux, nothing of its own otherwise.
pub open spec fn spec_zigbuild(kind: TargetKind, triple: Seq<char>, glibc_version: Seq<char>) -> Option<Seq<char>> {
    match kind {
        TargetKind::GnuLinux => Some(triple + "."@ + glibc_version),
        _ => None,
    }
}

impl BuildTarget {
    /// The build target with triple `target` of kind `kind`, where
    /// `glibc_version` is the glibc version pinned for the triple.
    pub fn classify_target(target: &str, kind: TargetKind, glibc_version: &str) -> (t: BuildTarget)
        ensures
            t.target@ == target@,
            t.kind == kind,
            opt_text(t.zigbuild) == spec_zigbuild(kind, target@, glibc_version@),
    {
        let zigbuild = match kind {
            TargetKind::GnuLinux => {
                let mut z = String::from_str(target);
                z.append(".");
                z.append(glibc_version);
                Some(z)
            },
            _ => None,
        };
        BuildTarget { target: String::from_str(target), kind, zigbuild }
    }

    /// Whether the target is Windows.
    pub fn is_windows(&self) -> (res: bool)
        ensures
            res == (self.kind == TargetKind::Windows),
    {
        match self.kind {
            TargetKind::Windows => true,
            _ => false,
        }
    }

    /// The target's triple.
    pub fn as_str(&self) -> (s: &str)
        ensures
            s@ == self.target@,
    {
        self.target.as_str()
    }

    /// The target `cargo zigbuild` builds for: the pinned GNU Linux target,
    /// else the triple itself.
    pub fn zigbuild_target(&self) -> (s: &str)
        ensures
            s@ == match self.zigbuild {
                Some(z) => z@,
                None => self.target@,
            },
    {
        match &self.zigbuild {
            Some(z) => z.as_str(),
            None => self.target.as_str(),
        }
    }
}

/// An optional text as a mathematical value.
pub open spec fn opt_text(o: Option<String>) -> Option<Seq<char>> {
    match o {
        Some(t) => Some(t@),
        None => None,
    }
}

} // verus!
