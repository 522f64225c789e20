use pexrc::interpreter::{
    candidate_rel_paths, candidate_verdict, pypy_version_matches, CandidateVerdict, Interpreter, InterpreterDetails,
};
use pexrc::constraints::{InterpreterConstraint, SpecifiersSource};
use pexrc::install_paths::{InstallPaths, InstallPathsError, SysconfigPath};
use pexrc::platform_details::parse;
use pexrc::version::{CPythonAbiInfo, PyPyVersion, PythonImplementation, PythonVersion, ReleaseLevel};

fn details(version: PythonVersion, pypy: Option<PyPyVersion>, abi: Option<CPythonAbiInfo>) -> InterpreterDetails {
    InterpreterDetails {
        path: "/usr/bin/python3.12".to_string(),
        prefix: "/home/me/venv".to_string(),
        base_prefix: Some("/usr".to_string()),
        version,
        pypy_version: pypy,
        cpython_abi_info: abi,
        paths: vec![
            ("purelib".to_string(), "/home/me/venv/lib/python3.12/site-packages".to_string()),
            ("scripts".to_string(), "/home/me/venv/bin".to_string()),
            ("purelib".to_string(), "/elsewhere".to_string()),
        ],
        has_ensurepip: true,
    }
}

fn abi() -> CPythonAbiInfo {
    CPythonAbiInfo { free_threaded: Some(false), debug: false, pymalloc: None, ucs4: None }
}

#[test]
fn test_interpreter_details() {
    let d = details(PythonVersion::new(3, 12, Some(4)), None, Some(abi()));
    assert_eq!(d.sysconfig_path("purelib"), Some("/home/me/venv/lib/python3.12/site-packages"));
    assert_eq!(d.sysconfig_path("scripts"), Some("/home/me/venv/bin"));
    assert_eq!(d.sysconfig_path("data"), None);
    assert!(matches!(d.python_implementation(), PythonImplementation::CPython(_)));
    let p = details(PythonVersion::new(3, 10, Some(14)), Some(PyPyVersion(7, 3, 17)), None);
    assert!(matches!(p.python_implementation(), PythonImplementation::PyPy(_)));
}

#[test]
fn test_interpreter_names_and_args() {
    let platform_details = parse("cpython-3.12.4-manylinux_2_28-x86_64", None, None, None).unwrap();
    let interpreter = Interpreter {
        realpath: "/usr/bin/python3.12".to_string(),
        details: details(PythonVersion::new(3, 12, Some(4)), None, Some(abi())),
        platform_details,
    };
    assert_eq!(interpreter.most_specific_exe_name(), "python3.12");
    assert_eq!(interpreter.hermetic_args(), "-I");
    assert!(interpreter.is_venv());
    assert_eq!(
        interpreter.prefix_rel_paths(),
        vec!["bin/python3.12".to_string(), "bin/python3".to_string(), "bin/python".to_string()]
    );
}

#[test]
fn test_candidate_rel_paths_pypy() {
    assert_eq!(
        candidate_rel_paths(&PythonVersion::new(3, 10, None), true),
        vec![
            "bin/pypy3.10".to_string(),
            "bin/pypy3".to_string(),
            "bin/pypy".to_string(),
            "bin/python3.10".to_string(),
            "bin/python3".to_string(),
            "bin/python".to_string(),
        ]
    );
}

#[test]
fn test_candidate_verdict() {
    let wanted = PythonVersion::new(3, 12, Some(4));
    let newer = PythonVersion::new(3, 12, Some(5));
    let other = PythonVersion::new(3, 11, Some(4));
    assert_eq!(candidate_verdict(wanted, None, wanted, None, false), CandidateVerdict::Accept);
    assert_eq!(candidate_verdict(newer, None, wanted, None, true), CandidateVerdict::Recheck);
    assert_eq!(candidate_verdict(newer, None, wanted, None, false), CandidateVerdict::Skip);
    assert_eq!(candidate_verdict(other, None, wanted, None, true), CandidateVerdict::Skip);
    let rc = PythonVersion { releaselevel: ReleaseLevel::Rc, serial: 1, ..wanted };
    assert_eq!(candidate_verdict(rc, None, wanted, None, true), CandidateVerdict::Recheck);
    assert_eq!(
        candidate_verdict(wanted, Some(PyPyVersion(7, 3, 17)), wanted, Some(PyPyVersion(7, 3, 16)), true),
        CandidateVerdict::Skip
    );
    assert!(pypy_version_matches(None, None));
    assert!(!pypy_version_matches(Some(PyPyVersion(7, 3, 17)), None));
}

#[test]
fn test_install_paths_for_venv() {
    let mut d = details(PythonVersion::new(3, 12, Some(4)), None, Some(abi()));
    d.paths = vec![
        ("data".to_string(), "/venv".to_string()),
        ("platlib".to_string(), "/venv/lib/python3.12/site-packages".to_string()),
        ("purelib".to_string(), "/venv/lib/python3.12/site-packages".to_string()),
        ("scripts".to_string(), "/venv/bin".to_string()),
    ];
    let paths = InstallPaths::for_venv("/venv", &d).unwrap();
    assert_eq!(paths.data, "/venv");
    assert_eq!(paths.scripts, "/venv/bin");
    assert_eq!(paths.headers_base, "/venv/include/site/python3.12");
    assert_eq!(paths.headers("foo"), "/venv/include/site/python3.12/foo");
    d.paths.remove(1);
    assert_eq!(
        InstallPaths::for_venv("/venv", &d).err(),
        Some(InstallPathsError::MissingSysconfigPath(SysconfigPath::Platlib))
    );
    assert_eq!(SysconfigPath::Platlib.name(), "platlib");
}

#[test]
fn test_interpreter_description() {
    let platform_details = parse("cpython-3.12.4-manylinux_2_28-x86_64", None, None, None).unwrap();
    let interpreter = Interpreter {
        realpath: "/usr/bin/python3.12".to_string(),
        details: details(PythonVersion::new(3, 12, Some(4)), None, Some(abi())),
        platform_details,
    };
    assert_eq!(interpreter.description(), "interpreter at /usr/bin/python3.12");
}

#[test]
fn test_exact_version_constraint() {
    let d = details(PythonVersion::new(3, 12, Some(4)), None, Some(abi()));
    let c = InterpreterConstraint::exact_version(&d);
    assert_eq!(c.specifiers_source, Some(SpecifiersSource::Release(3, 12)));
    assert!(c.contains_version(3, 12));
    assert!(!c.contains_version(3, 11));
    assert!(!c.contains_version(3, 13));
}
