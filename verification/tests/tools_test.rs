use pexrc::tools::{BuildTarget, TargetKind};
use pexrc::wheel::{record_zip_path, StrippedPaths};
use pexrc::pex_info::replaced_on_inject;
use pexrc::arch::{Arch, HostArchitecture};
use pexrc::error::PlatformError;
use pexrc::pex_info::{BinPath, InheritPath, InterpreterSelectionStrategy, PexInfoError};
use pexrc::constraints::SelectionStrategy;
use pexrc::output::{Output, PathOutputStyle};
use pexrc::tools::{join, BinstallTool, FoundTool, InstallDirs, SemVer, VersionCheckError, Zig};
use pexrc::wheel::{sorted_distinct, InstalledWheel, WheelError};

#[test]
fn test_join() {
    assert_eq!(join("", "bin", '/'), "bin");
    assert_eq!(join("/cache", "bin", '/'), "/cache/bin");
    assert_eq!(join("/cache/", "bin", '/'), "/cache/bin");
    assert_eq!(join(r"C:\cache", "bin", '\\'), r"C:\cache\bin");
    assert_eq!(join(r"C:\cache\", "bin", '\\'), r"C:\cache\bin");
    assert_eq!(join("C:/cache/", "bin", '\\'), "C:/cache/bin");
}

#[test]
fn test_install_dirs() {
    let dirs = InstallDirs::new("/home/me/.cache/pexrc");
    assert_eq!(dirs.bin_dir, "/home/me/.cache/pexrc/bin");
    assert_eq!(dirs.data_dir, "/home/me/.cache/pexrc/data");
    assert_eq!(dirs.download_dir, "/home/me/.cache/pexrc/downloads");
}

#[test]
fn test_binstall_tools() {
    assert_eq!(BinstallTool::all(), vec![BinstallTool::CargoZigbuild, BinstallTool::Uv]);
    assert_eq!(BinstallTool::CargoZigbuild.binary_name(), "cargo-zigbuild");
    assert_eq!(BinstallTool::Uv.min_version(), (0, 12, 2));
    assert_eq!(BinstallTool::CargoZigbuild.spec(), "cargo-zigbuild@>=0.23.0");
    assert_eq!(BinstallTool::Uv.spec(), "uv@>=0.12.2");
}

#[test]
fn test_zig() {
    let found = Zig::Found(FoundTool { env_var: "ZIG".to_string(), path: "/usr/bin/zig".to_string() });
    assert!(found.found());
    assert_eq!(found.missing_version(), None);
    let missing = Zig::MissingVersion("0.13.0".to_string());
    assert!(!missing.found());
    assert_eq!(missing.missing_version(), Some("0.13.0"));
}

#[test]
fn test_pex_info_values() {
    assert_eq!(BinPath::Prepend.as_str(), "prepend");
    assert_eq!(InheritPath::parse("fallback"), Ok(InheritPath::Fallback));
    assert_eq!(InheritPath::parse("Fallback"), Err(PexInfoError::InvalidInheritPath));
    assert_eq!(InterpreterSelectionStrategy::parse("newest"), Ok(InterpreterSelectionStrategy::Newest));
    assert_eq!(
        InterpreterSelectionStrategy::parse("latest"),
        Err(PexInfoError::InvalidInterpreterSelectionStrategy)
    );
    let s: SelectionStrategy = InterpreterSelectionStrategy::Oldest.into();
    assert_eq!(s, SelectionStrategy::Oldest);
    let back: InterpreterSelectionStrategy = SelectionStrategy::Newest.into();
    assert_eq!(back, InterpreterSelectionStrategy::Newest);
}

#[test]
fn test_output_configures_posix_paths() {
    assert_eq!(PathOutputStyle::Windows.as_str(), "windows");
    let mut setting = None;
    Output { output: None, path_style: PathOutputStyle::Auto }.configure_posix_paths(&mut setting);
    assert_eq!(setting, None);
    Output { output: None, path_style: PathOutputStyle::Windows }.configure_posix_paths(&mut setting);
    assert_eq!(setting, Some(false));
}

#[test]
fn test_sorted_distinct() {
    let items: Vec<Vec<char>> = vec!["py3", "cp312", "py3", "abi3"].into_iter().map(|s| s.chars().collect()).collect();
    let sorted: Vec<String> = sorted_distinct(&items).into_iter().map(|v| v.into_iter().collect()).collect();
    assert_eq!(sorted, vec!["abi3".to_string(), "cp312".to_string(), "py3".to_string()]);
}

#[test]
fn test_installed_wheel_file_name() {
    let wheel = InstalledWheel {
        project_name: "foo".to_string(),
        version: "1.0".to_string(),
        tags: vec!["py3-none-any".to_string(), "py2-none-any".to_string()],
        build: Some("1".to_string()),
        root_is_purelib: true,
    };
    assert_eq!(wheel.to_string(), "foo-1.0");
    assert_eq!(wheel.file_name(), Ok("foo-1.0-1-py2.py3-none-any.whl".to_string()));
    let bad = InstalledWheel { tags: vec!["py3-none".to_string()], build: None, ..wheel };
    assert_eq!(bad.file_name(), Err(WheelError::InvalidTag));
}

#[test]
fn test_arch_of_host() {
    assert_eq!(Arch::of_host(HostArchitecture::Armv7, true), Ok(Arch::Armv7));
    assert_eq!(Arch::of_host(HostArchitecture::Armv7, false), Err(PlatformError::UnknownHost));
    assert_eq!(Arch::of_host(HostArchitecture::Aarch64, false), Ok(Arch::Arm64));
    assert_eq!(Arch::of_host(HostArchitecture::X86_64, false), Ok(Arch::X64));
    assert_eq!(Arch::of_host(HostArchitecture::Other, true), Err(PlatformError::UnknownHost));
    assert!(Arch::current().is_ok());
}

#[test]
fn test_check_version_output() {
    let v = BinstallTool::Uv.check_version_output("uv 0.12.2 (8f1e2c3 2025-06-01)\n").unwrap();
    assert_eq!(v, SemVer { major: 0, minor: 12, patch: 2, pre: String::new() });
    assert_eq!(
        BinstallTool::CargoZigbuild.check_version_output("cargo-zigbuild 0.23.1\n").unwrap().patch,
        1
    );
    assert_eq!(
        BinstallTool::Uv.check_version_output("uv 0.11.9"),
        Err(VersionCheckError::TooOld(SemVer { major: 0, minor: 11, patch: 9, pre: String::new() }))
    );
    assert_eq!(
        BinstallTool::CargoZigbuild.check_version_output("cargo-zigbuild 0.23.0-beta.1"),
        Err(VersionCheckError::TooOld(SemVer { major: 0, minor: 23, patch: 0, pre: "beta.1".to_string() }))
    );
    assert_eq!(BinstallTool::Uv.check_version_output("uv"), Err(VersionCheckError::NoVersion));
    assert_eq!(BinstallTool::Uv.check_version_output("uv 0.12"), Err(VersionCheckError::InvalidVersion));
}

#[test]
fn test_build_targets() {
    let linux = BuildTarget::classify_target("x86_64-unknown-linux-gnu", TargetKind::GnuLinux, "2.17");
    assert_eq!(linux.zigbuild_target(), "x86_64-unknown-linux-gnu.2.17");
    assert_eq!(linux.as_str(), "x86_64-unknown-linux-gnu");
    assert!(!linux.is_windows());
    let windows = BuildTarget::classify_target("x86_64-pc-windows-msvc", TargetKind::Windows, "2.17");
    assert!(windows.is_windows());
    assert_eq!(windows.zigbuild_target(), "x86_64-pc-windows-msvc");
}

#[test]
fn test_record_zip_path() {
    let none = StrippedPaths { scripts: None, headers: None, platlib: None, purelib: None, data: None };
    assert_eq!(
        record_zip_path("six.py", true, &none, "six-1.16.0.data", false),
        Ok(Some(("six.py".to_string(), false)))
    );
    assert_eq!(record_zip_path("../../bin/x", false, &none, "six-1.16.0.data", false), Err(WheelError::UnexpectedRecordPath));
    let script = StrippedPaths { scripts: Some("tool".to_string()), ..none };
    assert_eq!(record_zip_path("../../bin/tool", false, &script, "p-1.data", true), Ok(None));
    assert_eq!(
        record_zip_path("../../bin/tool", false, &script, "p-1.data", false),
        Ok(Some(("p-1.data/scripts/tool".to_string(), true)))
    );
    let both = StrippedPaths {
        scripts: None,
        headers: None,
        platlib: Some("lib.so".to_string()),
        purelib: Some("lib.so".to_string()),
        data: Some("lib/python3.12/site-packages/lib.so".to_string()),
    };
    assert_eq!(
        record_zip_path("/venv/lib/python3.12/site-packages/lib.so", false, &both, "p-1.data", false),
        Ok(Some(("p-1.data/platlib/lib.so".to_string(), false)))
    );
}

#[test]
fn test_replaced_on_inject() {
    assert!(replaced_on_inject(".bootstrap/pex/__init__.py"));
    assert!(replaced_on_inject(".deps/six-1.16.0-py2.py3-none-any.whl/six.py"));
    assert!(replaced_on_inject("PEX-INFO"));
    assert!(replaced_on_inject("__pex__/__init__.py"));
    assert!(replaced_on_inject("__main__.py"));
    assert!(!replaced_on_inject("app/__main__.py"));
    assert!(!replaced_on_inject("app.py"));
}
