use pexrc::arch::Arch;
use pexrc::error::PlatformError;
use pexrc::linux::LibcVersion;
use pexrc::mac::Release as MacRelease;
use pexrc::markers::{marker_fields, PlatformRelease, PlatformVersion};
use pexrc::os::{Libc, Os};
use pexrc::platform::{Linux, Platform};
use pexrc::platform_details::{parse, parse_spec, HostPlatform, PlatformDetails, ReleaseInfo};
use pexrc::tags::calculate;
use pexrc::version::{parse_cpython_implementation, PythonImplementation, PythonVersion};

fn linux_host() -> HostPlatform {
    HostPlatform {
        os: Os::Linux(Libc::Gnu(LibcVersion::new(2, 35))),
        arch: Arch::X64,
        release_info: ReleaseInfo {
            release: "6.1.0-13-amd64".to_string(),
            version: "#1 SMP PREEMPT_DYNAMIC".to_string(),
        },
    }
}

#[test]
fn full_spec_markers_and_tags() {
    let details = parse("cpython-3.14.5-manylinux_2_28-aarch64", None, None, None).unwrap();
    assert_eq!(
        details.description(),
        "abbreviated platform cpython-3.14.5-manylinux_2_28-aarch64"
    );
    let m = details.marker_fields();
    assert_eq!(m.implementation_name, "cpython");
    assert_eq!(m.implementation_version, "3.14.5");
    assert_eq!(m.os_name, "posix");
    assert_eq!(m.platform_machine, "aarch64");
    assert_eq!(m.platform_python_implementation, "CPython");
    assert_eq!(m.platform_release, "4.4.302-cip103");
    assert_eq!(m.platform_system, "Linux");
    assert_eq!(m.platform_version, "<unknown>");
    assert_eq!(m.python_full_version, "3.14.5");
    assert_eq!(m.python_version, "3.14");
    assert_eq!(m.sys_platform, "linux");
    assert_eq!(details.primary_tag(), "cp314-cp314-linux_aarch64");
    let tags = details.supported_tags();
    assert_eq!(tags[1], "cp314-cp314-manylinux_2_28_aarch64");
    assert!(tags.contains(&"cp314-abi3-manylinux2014_aarch64".to_string()));
    assert!(tags.contains(&"py3-none-any".to_string()));
    assert_eq!(tags.last().unwrap(), "py30-none-any");
}

#[test]
fn spec_without_os_uses_host() {
    assert_eq!(parse("3.14", None, None, None).err(), Some(PlatformError::UnknownHost));
    let details = parse("python3.13", None, None, Some(linux_host())).unwrap();
    let m = details.marker_fields();
    assert_eq!(m.platform_release, "6.1.0-13-amd64");
    assert_eq!(m.platform_version, "#1 SMP PREEMPT_DYNAMIC");
    assert_eq!(m.platform_machine, "x86_64");
    assert_eq!(details.primary_tag(), "cp313-cp313-linux_x86_64");

    let given = parse(
        "3.13",
        Some(PlatformRelease::new("5.0")),
        Some(PlatformVersion::new("v")),
        Some(linux_host()),
    )
    .unwrap();
    assert_eq!(given.marker_fields().platform_release, "5.0");
    assert_eq!(given.marker_fields().platform_version, "v");
}

#[test]
fn mac_and_windows_specs() {
    let mac = parse("pypy3.11_7.3-macos", None, None, None).unwrap();
    let m = mac.marker_fields();
    assert_eq!(m.implementation_name, "pypy");
    assert_eq!(m.platform_machine, "arm64");
    assert_eq!(m.platform_release, "11.3.0");
    assert_eq!(m.sys_platform, "darwin");
    assert_eq!(mac.primary_tag(), "pp311-pypy311_pp73-macosx_11_0_arm64");

    let old_mac = parse("3.9-macos_10_15", None, None, None).unwrap();
    assert_eq!(old_mac.marker_fields().platform_machine, "x86_64");

    let windows = parse("cpython-3.14.5-windows_11-amd64", None, None, None).unwrap();
    let m = windows.marker_fields();
    assert_eq!(m.os_name, "nt");
    assert_eq!(m.platform_machine, "AMD64");
    assert_eq!(m.platform_release, "11");
    assert_eq!(m.sys_platform, "win32");
    assert_eq!(windows.primary_tag(), "cp314-cp314-win_amd64");
}

#[test]
fn spec_errors() {
    assert_eq!(
        parse("3.14-linux-x86_64-extra", None, None, None).err(),
        Some(PlatformError::TooManyComponents)
    );
    assert_eq!(parse("cpython", None, None, None).err(), Some(PlatformError::MissingVersion));
    assert_eq!(
        parse("jython3.11", None, None, None).err(),
        Some(PlatformError::UnsupportedImplementation)
    );
    assert_eq!(
        parse("3.14-macos-s390x", None, None, None).err(),
        Some(PlatformError::UnsupportedMacArch)
    );
    assert_eq!(parse("3.14-beos", None, None, None).err(), Some(PlatformError::UnsupportedOs));
    assert_eq!(
        parse("3.14-linux-mips", None, None, None).err(),
        Some(PlatformError::UnsupportedArch)
    );
    let parsed = parse_spec("python2.7-manylinux1", None, None, None).unwrap();
    assert_eq!(parsed.python_version.version(), PythonVersion::new(2, 7, None));
}

#[test]
fn python_details_match_explicit_spec() {
    let implementation =
        PythonImplementation::CPython(parse_cpython_implementation("3.12.3").unwrap());
    let platform = Platform::Linux(Linux { arch: Arch::X64, libc: Libc::Gnu(LibcVersion::new(2, 31)) });
    let interpreter = PlatformDetails::python(
        "/usr/bin/python3.12",
        implementation,
        platform,
        ReleaseInfo { release: "r".to_string(), version: "v".to_string() },
    )
    .unwrap();
    assert_eq!(interpreter.description(), "interpreter at /usr/bin/python3.12");
    let spec = parse(
        "cpython-3.12.3-manylinux_2_31-x86_64",
        Some(PlatformRelease::new("r")),
        Some(PlatformVersion::new("v")),
        None,
    )
    .unwrap();
    assert_eq!(interpreter.supported_tags(), spec.supported_tags());
    let (a, b) = (interpreter.marker_fields(), spec.marker_fields());
    assert_eq!(a.platform_release, b.platform_release);
    assert_eq!(a.platform_version, b.platform_version);
    assert_eq!(a.python_full_version, b.python_full_version);
    assert_eq!(a.sys_platform, b.sys_platform);
    assert_eq!(&calculate(implementation, platform), interpreter.supported_tags());
    let fields = marker_fields(
        implementation,
        platform,
        Some(PlatformRelease::new("r")),
        Some(PlatformVersion::new("v")),
    );
    assert_eq!(fields.implementation_version, a.implementation_version);
    let _ = MacRelease::new(11, 3);
}

#[test]
fn details_python_implementation() {
    let details = parse("cpython-3.14.5-manylinux_2_28-aarch64", None, None, None).unwrap();
    match details.python_implementation().unwrap() {
        PythonImplementation::CPython(c) => {
            assert_eq!(c.version, PythonVersion::new(3, 14, Some(5)));
            assert!(!c.abi_info.debug);
            assert_eq!(c.abi_info.free_threaded, None);
        },
        PythonImplementation::PyPy(_) => panic!("expected CPython"),
    }
    let details = parse("pypy3.11_7.3-macos", None, None, None).unwrap();
    match details.python_implementation().unwrap() {
        PythonImplementation::PyPy(p) => {
            assert_eq!(p.version.major, 3);
            assert_eq!(p.version.minor, 11);
            assert_eq!(p.pypy_version, None);
        },
        PythonImplementation::CPython(_) => panic!("expected PyPy"),
    }
}

#[test]
fn linux_spec_defaults() {
    let details = parse("cpython-3.14.5-linux", None, None, None).unwrap();
    let m = details.marker_fields();
    assert_eq!(m.platform_release, "4.4.302-cip103");
    assert_eq!(m.platform_machine, "x86_64");
    assert_eq!(m.platform_version, "<unknown>");
    let tags = details.supported_tags();
    assert!(tags.contains(&"cp314-cp314-manylinux_2_17_x86_64".to_string()));
    assert!(!tags.iter().any(|t| t.contains("manylinux_2_18")));
}

#[test]
fn debug_build_lists_its_own_abi_first() {
    let python = PythonImplementation::CPython(parse_cpython_implementation("3.14d").unwrap());
    let platform = Platform::Linux(Linux {
        arch: Arch::X64,
        libc: Libc::Gnu(LibcVersion::new(2, 17)),
    });
    let tags = calculate(python, platform);
    let linux: Vec<&String> = tags.iter().filter(|t| t.ends_with("-linux_x86_64")).collect();
    assert_eq!(linux[0], "cp314-cp314d-linux_x86_64");
    assert_eq!(linux[1], "cp314-cp314-linux_x86_64");
}

#[test]
fn linux_arch_names_parse_back() {
    for arch in [Arch::Arm64, Arch::Armv7, Arch::Ppc64le, Arch::Riscv64, Arch::S390x, Arch::X64] {
        assert_eq!(Arch::parse(arch.as_linux_arch()), Ok(arch));
    }
    assert_eq!(Arch::parse("arm64"), Ok(Arch::Arm64));
    assert_eq!(Arch::parse("amd64"), Ok(Arch::X64));
    assert_eq!(Arch::parse("x64"), Ok(Arch::X64));
    assert_eq!(Arch::parse("sparc"), Err(PlatformError::UnsupportedArch));
}

fn range_tags(major: u8, minor: u8) -> Vec<String> {
    let mut range = pexrc::tags::Range::new(&PythonVersion::new(major, minor, None));
    let mut tags = vec![];
    while let Some(t) = range.next() {
        tags.push(t);
    }
    tags
}

#[test]
fn generic_interpreter_ranges() {
    assert_eq!(range_tags(3, 2), vec!["py32", "py3", "py31", "py30"]);
    assert_eq!(range_tags(3, 0), vec!["py30", "py3"]);
}

#[test]
fn python_3_0_tags() {
    let python = PythonImplementation::CPython(parse_cpython_implementation("3.0").unwrap());
    let platform = Platform::Linux(Linux { arch: Arch::X64, libc: Libc::Gnu(LibcVersion::new(2, 17)) });
    let tags = calculate(python, platform);
    assert!(tags.contains(&"py30-none-any".to_string()));
    assert!(tags.contains(&"py3-none-any".to_string()));
    assert!(!tags.iter().any(|t| t.starts_with("py3-1")));
    let details = parse("cpython-3.0-linux", None, None, None).unwrap();
    assert!(details.supported_tags().contains(&"cp30-cp30-manylinux_2_17_x86_64".to_string()));
}
