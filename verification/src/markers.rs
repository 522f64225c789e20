//! The PEP 508 environment markers of a Python implementation on a platform.

use vstd::prelude::*;
use vstd::string::StringExecFns;

use pep440_rs::VersionParseError;
use pep508_rs::MarkerEnvironment;

use crate::arch::Arch;
use crate::mac::Release as MacRelease;
use crate::platform::{Linux, Mac, Platform, Windows};
use crate::text::{dec, push_decimal};
use crate::version::{spec_version_text, PythonImplementation};
use crate::windows::spec_release_str;

verus! {

/// A marker environment of the `pep508_rs` crate.
#[verifier::external_type_specification]
#[verifier::external_body]
pub struct ExMarkerEnvironment(MarkerEnvironment);

/// The error the `pep440_rs` crate gives for a text that is not a PEP 440
/// version.
#[verifier::external_type_specification]
#[verifier::external_body]
pub struct ExVersionParseError(VersionParseError);

/// Whether the `pep440_rs` crate parses `version` as a PEP 440 version
/// (`Version::from_str` succeeds).
pub uninterp spec fn pep440_accepts(version: Seq<char>) -> bool;

/// The values of the PEP 508 environment markers, as text.
pub struct MarkerFields {
    pub implementation_name: String,
    pub implementation_version: String,
    pub os_name: String,
    pub platform_machine: String,
    pub platform_python_implementation: String,
    pub platform_release: String,
    pub platform_system: String,
    pub platform_version: String,
    pub python_full_version: String,
    pub python_version: String,
    pub sys_platform: String,
}

/// The `platform_release` marker value given for a platform.
pub struct PlatformRelease(pub String);

/// The `platform_version` marker value given for a platform.
pub struct PlatformVersion(pub String);

impl PlatformRelease {
    /// The release `value`.
    pub fn new(value: &str) -> (r: PlatformRelease)
        ensures
            r.0@ == value@,
    {
        PlatformRelease(String::from_str(value))
    }
}

impl PlatformVersion {
    /// The version `value`.
    pub fn new(value: &str) -> (r: PlatformVersion)
        ensures
            r.0@ == value@,
    {
        PlatformVersion(String::from_str(value))
    }
}

/// The text of an optional platform release.
pub open spec fn release_text(r: Option<PlatformRelease>) -> Option<Seq<char>> {
    match r {
        Some(r) => Some(r.0@),
        None => None,
    }
}

/// The text of an optional platform version.
pub open spec fn version_text(v: Option<PlatformVersion>) -> Option<Seq<char>> {
    match v {
        Some(v) => Some(v.0@),
        None => None,
    }
}

/// `implementation_name`: `sys.implementation.name`.
pub open spec fn spec_implementation_name(pv: PythonImplementation) -> Seq<char> {
    match pv {
        PythonImplementation::CPython(_) => "cpython"@,
        PythonImplementation::PyPy(_) => "pypy"@,
    }
}

/// `platform_python_implementation`: `platform.python_implementation()`.
pub open spec fn spec_platform_python_implementation(pv: PythonImplementation) -> Seq<char> {
    match pv {
        PythonImplementation::CPython(_) => "CPython"@,
        PythonImplementation::PyPy(_) => "PyPy"@,
    }
}

/// `os_name`: `os.name`.
pub open spec fn spec_marker_os_name(platform: Platform) -> Seq<char> {
    match platform {
        Platform::Linux(_) => "posix"@,
        Platform::Mac(_) => "posix"@,
        Platform::Windows(_) => "nt"@,
    }
}

/// `platform_system`: `platform.system()`.
pub open spec fn spec_platform_system(platform: Platform) -> Seq<char> {
    match platform {
        Platform::Linux(_) => "Linux"@,
        Platform::Mac(_) => "Darwin"@,
        Platform::Windows(_) => "Windows"@,
    }
}

/// `sys_platform`: `sys.platform`, which is `linux2` on Linux for Python 2.
pub open spec fn spec_sys_platform(pv: PythonImplementation, platform: Platform) -> Seq<char> {
    match platform {
        Platform::Linux(_) => if pv.spec_version().major == 2 {
            "linux2"@
        } else {
            "linux"@
        },
        Platform::Mac(_) => "darwin"@,
        Platform::Windows(_) => "win32"@,
    }
}

/// `platform_machine`: `platform.machine()`.
pub open spec fn spec_platform_machine(platform: Platform) -> Seq<char> {
    match platform {
        Platform::Linux(linux) => match linux.arch {
            Arch::Arm64 => "aarch64"@,
            Arch::Armv7 => "armv7l"@,
            Arch::Ppc64le => "ppc64le"@,
            Arch::Riscv64 => "riscv64"@,
            Arch::S390x => "s390x"@,
            Arch::X64 => "x86_64"@,
        },
        Platform::Mac(mac) => if mac.arm64 {
            "arm64"@
        } else {
            "x86_64"@
        },
        Platform::Windows(windows) => if windows.arm64 {
            "ARM64"@
        } else {
            "AMD64"@
        },
    }
}

/// The `<major>.<minor>.<patch>` text of a macOS release, patch 0 when absent.
pub open spec fn spec_mac_release_text(release: MacRelease) -> Seq<char> {
    dec(release.major as nat) + "."@ + dec(release.minor as nat) + "."@ + dec(
        match release.patch {
            Some(p) => p as nat,
            None => 0,
        },
    )
}

/// `platform_release`: the given release, else what the platform implies:
/// the kernel `4.4.302-cip103` on Linux, the release on macOS and Windows.
pub open spec fn spec_platform_release(platform: Platform, given: Option<Seq<char>>) -> Seq<char> {
    match given {
        Some(r) => r,
        None => match platform {
            Platform::Linux(_) => "4.4.302-cip103"@,
            Platform::Mac(mac) => spec_mac_release_text(mac.release),
            Platform::Windows(windows) => match windows.release {
                Some(r) => spec_release_str(r),
                None => "<unknown>"@,
            },
        },
    }
}

/// `platform_version`: the given version, else unknown.
pub open spec fn spec_platform_version(given: Option<Seq<char>>) -> Seq<char> {
    match given {
        Some(v) => v,
        None => "<unknown>"@,
    }
}

/// `python_version`: `<major>.<minor>`.
pub open spec fn spec_python_version(pv: PythonImplementation) -> Seq<char> {
    dec(pv.spec_version().major as nat) + "."@ + dec(pv.spec_version().minor as nat)
}

/// Whether `f` holds the markers of the implementation `pv` on `platform`
/// with the given platform release and version.
pub open spec fn markers_of(
    f: MarkerFields,
    pv: PythonImplementation,
    platform: Platform,
    release: Option<Seq<char>>,
    version: Option<Seq<char>>,
) -> bool {
    &&& f.implementation_name@ == spec_implementation_name(pv)
    &&& f.implementation_version@ == spec_version_text(pv.spec_version())
    &&& f.os_name@ == spec_marker_os_name(platform)
    &&& f.platform_machine@ == spec_platform_machine(platform)
    &&& f.platform_python_implementation@ == spec_platform_python_implementation(pv)
    &&& f.platform_release@ == spec_platform_release(platform, release)
    &&& f.platform_system@ == spec_platform_system(platform)
    &&& f.platform_version@ == spec_platform_version(version)
    &&& f.python_full_version@ == spec_version_text(pv.spec_version())
    &&& f.python_version@ == spec_python_version(pv)
    &&& f.sys_platform@ == spec_sys_platform(pv, platform)
}

/// Whether the `pep440_rs` crate accepts the three version markers of `f`.
pub open spec fn versions_accepted(f: MarkerFields) -> bool {
    &&& pep440_accepts(f.implementation_version@)
    &&& pep440_accepts(f.python_full_version@)
    &&& pep440_accepts(f.python_version@)
}

/// Whether the `pep440_rs` crate accepts the version markers of `pv`.
pub open spec fn versions_accepted_for(pv: PythonImplementation) -> bool {
    &&& pep440_accepts(spec_version_text(pv.spec_version()))
    &&& pep440_accepts(spec_python_version(pv))
}

fn machine_of(platform: Platform) -> (s: &'static str)
    ensures
        s@ == spec_platform_machine(platform),
{
    match platform {
        Platform::Linux(Linux { arch, .. }) => match arch {
            Arch::Arm64 => "aarch64",
            Arch::Armv7 => "armv7l",
            Arch::Ppc64le => "ppc64le",
            Arch::Riscv64 => "riscv64",
            Arch::S390x => "s390x",
            Arch::X64 => "x86_64",
        },
        Platform::Mac(Mac { arm64, .. }) => if arm64 {
            "arm64"
        } else {
            "x86_64"
        },
        Platform::Windows(Windows { arm64, .. }) => if arm64 {
            "ARM64"
        } else {
            "AMD64"
        },
    }
}

fn release_of(platform: Platform, given: Option<PlatformRelease>) -> (s: String)
    ensures
        s@ == spec_platform_release(platform, release_text(given)),
{
    match given {
        Some(r) => r.0,
        None => match platform {
            Platform::Linux(_) => String::from_str("4.4.302-cip103"),
            Platform::Mac(Mac { release, .. }) => {
                let mut s = String::new();
                push_decimal(&mut s, release.major as u64);
                s.append(".");
                push_decimal(&mut s, release.minor as u64);
                s.append(".");
                let patch: u8 = match release.patch {
                    Some(p) => p,
                    None => 0,
                };
                push_decimal(&mut s, patch as u64);
                s
            },
            Platform::Windows(Windows { release, .. }) => match release {
                Some(r) => String::from_str(r.as_str()),
                None => String::from_str("<unknown>"),
            },
        },
    }
}

/// The markers of the implementation `python_version` on `platform`; the
/// release and version of the platform are unknown unless given (macOS and
/// Windows imply a release).
pub fn marker_fields(
    python_version: PythonImplementation,
    platform: Platform,
    platform_release: Option<PlatformRelease>,
    platform_version: Option<PlatformVersion>,
) -> (f: MarkerFields)
    ensures
        markers_of(f, python_version, platform, release_text(platform_release), version_text(platform_version)),
{
    let ghost given_release = release_text(platform_release);
    let ghost given_version = version_text(platform_version);
    let (implementation_name, platform_python_implementation) = match python_version {
        PythonImplementation::CPython(_) => ("cpython", "CPython"),
        PythonImplementation::PyPy(_) => ("pypy", "PyPy"),
    };
    let version = python_version.version();
    let (os_name, platform_system, sys_platform) = match platform {
        Platform::Linux(_) => ("posix", "Linux", if version.major == 2 {
            "linux2"
        } else {
            "linux"
        }),
        Platform::Mac(_) => ("posix", "Darwin", "darwin"),
        Platform::Windows(_) => ("nt", "Windows", "win32"),
    };
    let platform_machine = machine_of(platform);
    let release = release_of(platform, platform_release);
    let platform_version = match platform_version {
        Some(v) => v.0,
        None => String::from_str("<unknown>"),
    };
    let implementation_version = version.to_string();
    let python_full_version = version.to_string();
    let mut python_version_text = String::new();
    push_decimal(&mut python_version_text, version.major as u64);
    python_version_text.append(".");
    push_decimal(&mut python_version_text, version.minor as u64);
    MarkerFields {
        implementation_name: String::from_str(implementation_name),
        implementation_version,
        os_name: String::from_str(os_name),
        platform_machine: String::from_str(platform_machine),
        platform_python_implementation: String::from_str(platform_python_implementation),
        platform_release: release,
        platform_system: String::from_str(platform_system),
        platform_version,
        python_full_version,
        python_version: python_version_text,
        sys_platform: String::from_str(sys_platform),
    }
}

/// The eleven marker values, in the order `implementation_name`,
/// `implementation_version`, `os_name`, `platform_machine`,
/// `platform_python_implementation`, `platform_release`, `platform_system`,
/// `platform_version`, `python_full_version`, `python_version`,
/// `sys_platform`.
pub open spec fn marker_texts(f: MarkerFields) -> Seq<Seq<char>> {
    seq![
        f.implementation_name@,
        f.implementation_version@,
        f.os_name@,
        f.platform_machine@,
        f.platform_python_implementation@,
        f.platform_release@,
        f.platform_system@,
        f.platform_version@,
        f.python_full_version@,
        f.python_version@,
        f.sys_platform@,
    ]
}

/// The environment the `pep508_rs` crate builds from the marker values
/// `fields`, in the order of [`marker_texts`] (`MarkerEnvironment::try_from`).
pub uninterp spec fn pep508_marker_env(fields: Seq<Seq<char>>) -> MarkerEnvironment;

/// `MarkerEnvironment::try_from` of the `pep508_rs` crate on a builder that
/// holds the markers `fields`. The crate parses the three version markers as
/// PEP 440 versions and copies the others; it fails exactly when one of the
/// three does not parse, and otherwise gives the environment named
/// [`pep508_marker_env`] of the marker values.
#[verifier::external_body]
pub(crate) fn marker_environment(fields: &MarkerFields) -> (res: Result<MarkerEnvironment, VersionParseError>)
    ensures
        res is Ok <==> (pep440_accepts(fields.implementation_version@) && pep440_accepts(
            fields.python_full_version@,
        ) && pep440_accepts(fields.python_version@)),
        res matches Ok(e) ==> e == pep508_marker_env(marker_texts(*fields)),
{
    MarkerEnvironment::try_from(pep508_rs::MarkerEnvironmentBuilder {
        implementation_name: fields.implementation_name.as_str(),
        implementation_version: fields.implementation_version.as_str(),
        os_name: fields.os_name.as_str(),
        platform_machine: fields.platform_machine.as_str(),
        platform_python_implementation: fields.platform_python_implementation.as_str(),
        platform_release: fields.platform_release.as_str(),
        platform_system: fields.platform_system.as_str(),
        platform_version: fields.platform_version.as_str(),
        python_full_version: fields.python_full_version.as_str(),
        python_version: fields.python_version.as_str(),
        sys_platform: fields.sys_platform.as_str(),
    })
}

} // verus!
