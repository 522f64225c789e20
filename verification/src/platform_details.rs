//! The details of a Python platform: its markers and supported wheel tags,
//! for an interpreter or for an abbreviated platform specification such as
//! `cpython-3.14.5-manylinux_2_28-aarch64`.

use vstd::prelude::*;
use vstd::string::StringExecFns;

use pep508_rs::MarkerEnvironment;

use crate::arch::{spec_parse_arch, Arch};
use crate::error::PlatformError;
use crate::implementation::{spec_parse_implementation, Implementation};
use crate::mac::{release_lt, Release as MacRelease};
use crate::markers::{
    marker_environment, marker_fields, marker_texts, markers_of, pep508_marker_env, release_text, version_text, versions_accepted,
    versions_accepted_for, MarkerFields, PlatformRelease, PlatformVersion,
};
use crate::os::{spec_parse_os, Os};
use crate::platform::{spec_from_parts, Platform};
use crate::tags;
use crate::tags::{spec_tags, views};
use crate::text::{char_seqs, chars_of, find_major_digit, find_major_digit_in, split_all, split_chars, sub_chars};
use crate::version;
use crate::version::PythonImplementation;

verus! {

/// The release and version an operating system reports for itself
/// (`uname -r` and `uname -v` on Unix).
pub struct ReleaseInfo {
    pub release: String,
    pub version: String,
}

/// The platform this program runs on: what a specification that names no
/// operating system stands for.
pub struct HostPlatform {
    pub os: Os,
    pub arch: Arch,
    pub release_info: ReleaseInfo,
}

/// A platform specification taken apart: the implementation, the platform and
/// the platform release and version markers, where known.
pub struct ParsedSpec {
    pub python_version: PythonImplementation,
    pub platform: Platform,
    pub platform_release: Option<PlatformRelease>,
    pub platform_version: Option<PlatformVersion>,
}

/// The details of a Python platform: where they come from, its environment
/// markers and its supported wheel tags, most specific first.
pub struct PlatformDetails {
    source: String,
    marker_fields: MarkerFields,
    marker_env: MarkerEnvironment,
    supported_tags: Vec<String>,
}

impl PlatformDetails {
    /// There is at least one supported tag, the version markers are ones
    /// the `pep440_rs` crate accepts, and the environment is the one it
    /// builds from the markers.
    #[verifier::type_invariant]
    spec fn well_formed(self) -> bool {
        &&& self.supported_tags@.len() > 0
        &&& versions_accepted(self.marker_fields)
        &&& self.marker_env == pep508_marker_env(marker_texts(self.marker_fields))
    }

    /// Where the details come from.
    pub closed spec fn source_text(self) -> Seq<char> {
        self.source@
    }

    /// The environment markers, as text.
    pub closed spec fn markers(self) -> MarkerFields {
        self.marker_fields
    }

    /// The environment markers as the `pep508_rs` crate holds them.
    pub closed spec fn env(self) -> MarkerEnvironment {
        self.marker_env
    }

    /// The supported wheel tags, most specific first.
    pub closed spec fn tags(self) -> Seq<Seq<char>> {
        views(self.supported_tags@)
    }

    /// Details with the given source, markers and supported tags; `None`
    /// when no tag is given, or when the `pep440_rs` crate does not accept a
    /// version marker.
    pub fn new(source: String, marker_fields: MarkerFields, supported_tags: Vec<String>) -> (res: Result<
        PlatformDetails,
        PlatformError,
    >)
        ensures
            match res {
                Ok(d) => {
                    &&& versions_accepted(marker_fields)
                    &&& d.source_text() == source@
                    &&& d.markers() == marker_fields
                    &&& d.env() == pep508_marker_env(marker_texts(marker_fields))
                    &&& d.tags() == views(supported_tags@)
                },
                Err(e) => {
                    ||| !versions_accepted(marker_fields) && e == PlatformError::InvalidMarkerVersion
                    ||| versions_accepted(marker_fields) && supported_tags@.len() == 0 && e
                        == PlatformError::NoSupportedTags
                },
            },
    {
        let marker_env = match marker_environment(&marker_fields) {
            Ok(env) => env,
            Err(_) => {
                return Err(PlatformError::InvalidMarkerVersion);
            },
        };
        if supported_tags.len() == 0 {
            return Err(PlatformError::NoSupportedTags);
        }
        Ok(PlatformDetails { source, marker_fields, marker_env, supported_tags })
    }

    /// The details of the interpreter at `python_exe`, an implementation
    /// `python_version` running on `platform`, which reports `release_info`.
    pub fn python(
        python_exe: &str,
        python_version: PythonImplementation,
        platform: Platform,
        release_info: ReleaseInfo,
    ) -> (res: Result<PlatformDetails, PlatformError>)
        ensures
            match res {
                Ok(d) => {
                    &&& versions_accepted_for(python_version)
                    &&& d.source_text() == "interpreter at "@ + python_exe@
                    &&& markers_of(
                        d.markers(),
                        python_version,
                        platform,
                        Some(release_info.release@),
                        Some(release_info.version@),
                    )
                    &&& d.tags() == spec_tags(python_version, platform)
                },
                Err(e) => !versions_accepted_for(python_version) && e == PlatformError::InvalidMarkerVersion,
            },
    {
        let mut source = String::from_str("interpreter at ");
        source.append(python_exe);
        let ghost release = release_info.release@;
        let ghost version = release_info.version@;
        let fields = marker_fields(
            python_version,
            platform,
            Some(PlatformRelease(release_info.release)),
            Some(PlatformVersion(release_info.version)),
        );
        let supported_tags = tags::calculate(python_version, platform);
        proof {
            tags::lemma_tags_not_empty(python_version, platform);
        }
        Self::new(source, fields, supported_tags)
    }

    /// Where the details come from.
    pub fn description(&self) -> (s: &str)
        ensures
            s@ == self.source_text(),
    {
        self.source.as_str()
    }

    /// The environment markers, as text.
    pub fn marker_fields(&self) -> (f: &MarkerFields)
        ensures
            *f == self.markers(),
    {
        &self.marker_fields
    }

    /// The environment markers, as the `pep508_rs` crate holds them: the
    /// environment it builds from [`PlatformDetails::markers`].
    pub fn marker_env(&self) -> (e: &MarkerEnvironment)
        ensures
            *e == self.env(),
            *e == pep508_marker_env(marker_texts(self.markers())),
    {
        proof {
            use_type_invariant(self);
        }
        &self.marker_env
    }

    /// The supported wheel tags, most specific first.
    pub fn supported_tags(&self) -> (t: &Vec<String>)
        ensures
            views(t@) == self.tags(),
    {
        &self.supported_tags
    }

    /// The most specific supported wheel tag.
    pub fn primary_tag(&self) -> (t: &String)
        ensures
            self.tags().len() > 0,
            t@ == self.tags()[0],
    {
        proof {
            use_type_invariant(self);
        }
        &self.supported_tags[0]
    }
}

/// The implementation a platform specification starts with, and how many of
/// its `-`-separated components that takes: `<implementation>-<version>`,
/// `<implementation><version>` with the version starting at the first `2` or
/// `3` (`python` standing for CPython), or a bare CPython version.
pub open spec fn spec_python_part(comps: Seq<Seq<char>>) -> Result<(PythonImplementation, nat), PlatformError> {
    let first = comps[0];
    match spec_parse_implementation(first) {
        Some(implementation) => if comps.len() < 2 {
            Err(PlatformError::MissingVersion)
        } else {
            match version::spec_parse(implementation, comps[1]) {
                Ok(pv) => Ok((pv, 2)),
                Err(e) => Err(PlatformError::Version(e)),
            }
        },
        None => {
            let bare = match version::spec_parse(Implementation::CPython, first) {
                Ok(pv) => Ok((pv, 1nat)),
                Err(e) => Err(PlatformError::Version(e)),
            };
            match find_major_digit(first) {
                Some(index) => if index > 0 {
                    let name = first.take(index as int);
                    let implementation = if name == "python"@ {
                        Some(Implementation::CPython)
                    } else {
                        spec_parse_implementation(name)
                    };
                    match implementation {
                        None => Err(PlatformError::UnsupportedImplementation),
                        Some(implementation) => match version::spec_parse(
                            implementation,
                            first.skip(index as int),
                        ) {
                            Ok(pv) => Ok((pv, 1)),
                            Err(e) => Err(PlatformError::Version(e)),
                        },
                    }
                } else {
                    bare
                },
                None => bare,
            }
        },
    }
}

/// The architecture assumed when an operating system is named without one:
/// x86_64, except arm64 for macOS 10.16 (11.0, the first to run on Apple
/// Silicon) and newer.
pub open spec fn default_arch(os: Os) -> Arch {
    match os {
        Os::Linux(_) => Arch::X64,
        Os::Mac(release) => if release_lt(release, MacRelease { major: 10, minor: 16, patch: None }) {
            Arch::X64
        } else {
            Arch::Arm64
        },
        Os::Windows(_) => Arch::X64,
    }
}

/// A platform specification whose last component names the operating system,
/// with no architecture after it, stands for x86_64 on Windows and Linux,
/// and on macOS for arm64 exactly from 10.16 (11.0) on.
pub proof fn law_os_without_arch_defaults(
    spec: Seq<char>,
    k: nat,
    release: Option<Seq<char>>,
    version: Option<Seq<char>>,
    host: Option<HostPlatform>,
)
    requires
        spec_python_part(split_all(spec, '-')) matches Ok((_, n)) && n == k,
        k + 1 == split_all(spec, '-').len(),
    ensures
        spec_parse_os(split_all(spec, '-')[k as int]) matches Ok(Os::Windows(_)) ==> (spec_parse_spec(
            spec,
            release,
            version,
            host,
        ) matches Ok((_, Platform::Windows(w), _, _)) && !w.arm64),
        spec_parse_os(split_all(spec, '-')[k as int]) matches Ok(Os::Linux(_)) ==> (spec_parse_spec(
            spec,
            release,
            version,
            host,
        ) matches Ok((_, Platform::Linux(l), _, _)) && l.arch == Arch::X64),
        spec_parse_os(split_all(spec, '-')[k as int]) matches Ok(Os::Mac(r)) ==> (spec_parse_spec(
            spec,
            release,
            version,
            host,
        ) matches Ok((_, Platform::Mac(m), _, _)) && m.arm64 == !release_lt(
            r,
            MacRelease { major: 10, minor: 16, patch: None },
        )),
{
}

/// The platform that the components from index `k` on describe, the
/// platform release and version markers to use, and the number of components
/// used in all. With no operating system named the host platform is used, with
/// the host's release (Linux only) and version unless given.
pub open spec fn spec_platform_part(
    comps: Seq<Seq<char>>,
    k: nat,
    release: Option<Seq<char>>,
    version: Option<Seq<char>>,
    host: Option<HostPlatform>,
) -> Result<(Platform, Option<Seq<char>>, Option<Seq<char>>, nat), PlatformError> {
    if k < comps.len() {
        match spec_parse_os(comps[k as int]) {
            Err(e) => Err(e),
            Ok(os) => {
                let arch = if k + 1 < comps.len() {
                    match spec_parse_arch(comps[k + 1 as int]) {
                        Some(a) => Ok((a, k + 2)),
                        None => Err(PlatformError::UnsupportedArch),
                    }
                } else {
                    Ok((default_arch(os), k + 1))
                };
                match arch {
                    Err(e) => Err(e),
                    Ok((arch, n)) => match spec_from_parts(os, arch) {
                        Ok(p) => Ok((p, release, version, n)),
                        Err(e) => Err(e),
                    },
                }
            },
        }
    } else {
        match host {
            None => Err(PlatformError::UnknownHost),
            Some(h) => {
                let host_version = Some(
                    match version {
                        Some(v) => v,
                        None => h.release_info.version@,
                    },
                );
                let host_release = match h.os {
                    Os::Linux(_) => Some(
                        match release {
                            Some(r) => r,
                            None => h.release_info.release@,
                        },
                    ),
                    _ => release,
                };
                match spec_from_parts(h.os, h.arch) {
                    Ok(p) => Ok((p, host_release, host_version, k)),
                    Err(e) => Err(e),
                }
            },
        }
    }
}

/// What a platform specification stands for: the implementation, the
/// platform and the platform release and version markers; at most
/// `<implementation>-<version>-<os>-<arch>`.
pub open spec fn spec_parse_spec(
    spec: Seq<char>,
    release: Option<Seq<char>>,
    version: Option<Seq<char>>,
    host: Option<HostPlatform>,
) -> Result<(PythonImplementation, Platform, Option<Seq<char>>, Option<Seq<char>>), PlatformError> {
    let comps = split_all(spec, '-');
    match spec_python_part(comps) {
        Err(e) => Err(e),
        Ok((pv, k)) => match spec_platform_part(comps, k, release, version, host) {
            Err(e) => Err(e),
            Ok((platform, r, v, n)) => if n < comps.len() {
                Err(PlatformError::TooManyComponents)
            } else {
                Ok((pv, platform, r, v))
            },
        },
    }
}


fn python_part(comps: &Vec<Vec<char>>) -> (res: Result<(PythonImplementation, usize), PlatformError>)
    requires
        comps@.len() >= 1,
    ensures
        match res {
            Ok((pv, k)) => spec_python_part(char_seqs(comps@)) == Ok::<(PythonImplementation, nat), PlatformError>((pv, k as nat)),
            Err(e) => spec_python_part(char_seqs(comps@)) == Err::<(PythonImplementation, nat), PlatformError>(e),
        },
{
    let ghost cs = char_seqs(comps@);
    assert(cs[0] == comps@[0]@);
    let first = &comps[0];
    match Implementation::parse_chars(first.as_slice()) {
        Ok(implementation) => {
            if comps.len() < 2 {
                return Err(PlatformError::MissingVersion);
            }
            assert(cs[1] == comps@[1]@);
            match version::parse_chars(implementation, comps[1].as_slice()) {
                Ok(pv) => Ok((pv, 2)),
                Err(e) => Err(PlatformError::Version(e)),
            }
        },
        Err(_) => {
            if let Some(index) = find_major_digit_in(first.as_slice()) {
                if index > 0 {
                    let name = sub_chars(first.as_slice(), 0, index);
                    let rest = sub_chars(first.as_slice(), index, first.len());
                    assert(name@ =~= first@.take(index as int));
                    assert(rest@ =~= first@.skip(index as int));
                    let python = chars_of("python");
                    let implementation = if crate::text::chars_eq(name.as_slice(), python.as_slice()) {
                        Implementation::CPython
                    } else {
                        match Implementation::parse_chars(name.as_slice()) {
                            Ok(i) => i,
                            Err(_) => {
                                return Err(PlatformError::UnsupportedImplementation);
                            },
                        }
                    };
                    return match version::parse_chars(implementation, rest.as_slice()) {
                        Ok(pv) => Ok((pv, 1)),
                        Err(e) => Err(PlatformError::Version(e)),
                    };
                }
            }
            match version::parse_chars(Implementation::CPython, first.as_slice()) {
                Ok(pv) => Ok((pv, 1)),
                Err(e) => Err(PlatformError::Version(e)),
            }
        },
    }
}

fn default_arch_of(os: &Os) -> (a: Arch)
    ensures
        a == default_arch(*os),
{
    match os {
        Os::Linux(_) => Arch::X64,
        Os::Mac(release) => if release.precedes(&MacRelease::new(10, 16)) {
            Arch::X64
        } else {
            Arch::Arm64
        },
        Os::Windows(_) => Arch::X64,
    }
}

/// Takes a platform specification apart, as [`spec_parse_spec`] describes;
/// `host` is the platform this program runs on, where it is known.
pub fn parse_spec(
    spec: &str,
    platform_release: Option<PlatformRelease>,
    platform_version: Option<PlatformVersion>,
    host: Option<HostPlatform>,
) -> (res: Result<ParsedSpec, PlatformError>)
    ensures
        match spec_parse_spec(spec@, release_text(platform_release), version_text(platform_version), host) {
            Ok((pv, platform, r, v)) => res matches Ok(p) && p.python_version == pv && p.platform == platform
                && release_text(p.platform_release) == r && version_text(p.platform_version) == v,
            Err(e) => res matches Err(f) && f == e,
        },
{
    let ghost given_release = release_text(platform_release);
    let ghost given_version = version_text(platform_version);
    let ghost host_view = host;
    let chars = chars_of(spec);
    let comps = split_chars(chars.as_slice(), '-');
    let ghost cs = char_seqs(comps@);
    assert(cs.len() >= 1) by {
        reveal_with_fuel(split_all, 1);
    }
    let (python_version, k) = match python_part(&comps) {
        Ok(r) => r,
        Err(e) => {
            return Err(e);
        },
    };
    let (platform, platform_release, platform_version, n) = if k < comps.len() {
        assert(cs[k as int] == comps@[k as int]@);
        let os = match Os::parse_chars(comps[k].as_slice()) {
            Ok(os) => os,
            Err(e) => {
                return Err(e);
            },
        };
        let (arch, n) = if k + 1 < comps.len() {
            assert(cs[k + 1] == comps@[k + 1]@);
            match Arch::parse_chars(comps[k + 1].as_slice()) {
                Ok(a) => (a, k + 2),
                Err(e) => {
                    return Err(e);
                },
            }
        } else {
            (default_arch_of(&os), k + 1)
        };
        let platform = match Platform::from_parts(os, arch) {
            Ok(p) => p,
            Err(e) => {
                return Err(e);
            },
        };
        (platform, platform_release, platform_version, n)
    } else {
        match host {
            None => {
                return Err(PlatformError::UnknownHost);
            },
            Some(h) => {
                let HostPlatform { os, arch, release_info } = h;
                let ReleaseInfo { release, version } = release_info;
                let platform_version = match platform_version {
                    Some(v) => Some(v),
                    None => Some(PlatformVersion(version)),
                };
                let platform_release = match os {
                    Os::Linux(_) => match platform_release {
                        Some(r) => Some(r),
                        None => Some(PlatformRelease(release)),
                    },
                    _ => platform_release,
                };
                let platform = match Platform::from_parts(os, arch) {
                    Ok(p) => p,
                    Err(e) => {
                        return Err(e);
                    },
                };
                (platform, platform_release, platform_version, k)
            },
        }
    };
    if n < comps.len() {
        return Err(PlatformError::TooManyComponents);
    }
    Ok(ParsedSpec { python_version, platform, platform_release, platform_version })
}

/// The details of the platform a specification describes, e.g. `3.14`,
/// `pypy3.11`, `cpython-3.14.5-macos_26_5-arm64`: the implementation and
/// platform as [`spec_parse_spec`] gives them, their markers and their tags.
/// `host` is the platform this program runs on, where it is known.
pub fn parse(
    spec: &str,
    platform_release: Option<PlatformRelease>,
    platform_version: Option<PlatformVersion>,
    host: Option<HostPlatform>,
) -> (res: Result<PlatformDetails, PlatformError>)
    ensures
        match spec_parse_spec(spec@, release_text(platform_release), version_text(platform_version), host) {
            Ok((pv, platform, r, v)) => if versions_accepted_for(pv) {
                res matches Ok(d) && d.source_text() == "abbreviated platform "@ + spec@ && markers_of(
                    d.markers(),
                    pv,
                    platform,
                    r,
                    v,
                ) && d.tags() == spec_tags(pv, platform)
            } else {
                res matches Err(e) && e == PlatformError::InvalidMarkerVersion
            },
            Err(e) => res matches Err(f) && f == e,
        },
{
    let ParsedSpec { python_version, platform, platform_release, platform_version } = match parse_spec(
        spec,
        platform_release,
        platform_version,
        host,
    ) {
        Ok(p) => p,
        Err(e) => {
            return Err(e);
        },
    };
    let fields = marker_fields(python_version, platform, platform_release, platform_version);
    let supported_tags = tags::calculate(python_version, platform);
    proof {
        tags::lemma_tags_not_empty(python_version, platform);
    }
    let mut source = String::from_str("abbreviated platform ");
    source.append(spec);
    PlatformDetails::new(source, fields, supported_tags)
}

/// The implementation a platform's markers describe, of the version
/// `python_full_version` gives: PyPy when `platform_python_implementation`
/// is `PyPy`, else CPython with nothing stated of its ABI; `None` when the
/// version is not one this library reads.
pub open spec fn spec_markers_implementation(m: MarkerFields) -> Option<PythonImplementation> {
    match version::spec_parse_python_version(m.python_full_version@) {
        None => None,
        Some(v) => if m.platform_python_implementation@ == "PyPy"@ {
            Some(PythonImplementation::PyPy(version::PyPyImplementation { version: v, pypy_version: None }))
        } else {
            Some(
                PythonImplementation::CPython(
                    version::CPythonImplementation {
                        version: v,
                        abi_info: version::CPythonAbiInfo {
                            free_threaded: None,
                            debug: false,
                            pymalloc: None,
                            ucs4: None,
                        },
                    },
                ),
            )
        },
    }
}

impl PlatformDetails {
    /// The implementation the platform's markers describe, as
    /// [`spec_markers_implementation`] gives it; an error when the full
    /// Python version marker is not a version this library reads.
    pub fn python_implementation(&self) -> (res: Result<PythonImplementation, PlatformError>)
        ensures
            match spec_markers_implementation(self.markers()) {
                Some(pv) => res == Ok::<PythonImplementation, PlatformError>(pv),
                None => res == Err::<PythonImplementation, PlatformError>(
                    PlatformError::Version(version::VersionError::InvalidPythonVersion),
                ),
            },
    {
        let m = &self.marker_fields;
        match version::parse_python_version(m.python_full_version.as_str()) {
            Err(_) => Err(PlatformError::Version(version::VersionError::InvalidPythonVersion)),
            Ok(v) => {
                proof {
                    reveal_strlit("PyPy");
                }
                if crate::text::str_eq(m.platform_python_implementation.as_str(), "PyPy") {
                    Ok(PythonImplementation::PyPy(version::PyPyImplementation { version: v, pypy_version: None }))
                } else {
                    Ok(
                        PythonImplementation::CPython(
                            version::CPythonImplementation {
                                version: v,
                                abi_info: version::CPythonAbiInfo {
                                    free_threaded: None,
                                    debug: false,
                                    pymalloc: None,
                                    ucs4: None,
                                },
                            },
                        ),
                    )
                }
            },
        }
    }
}

} // verus!
