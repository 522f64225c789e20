use pexrc::implementation::Implementation;
use pexrc::version::{
    parse, parse_cpython_implementation, parse_pypy_implementation, parse_python_version,
    CPythonAbiInfo, CPythonImplementation, PyPyVersion, PythonImplementation, PythonVersion,
    ReleaseLevel, VersionError,
};

#[test]
fn test_parse_cpython_implementation() {
    assert_eq!(
        CPythonImplementation {
            version: PythonVersion {
                major: 3,
                minor: 14,
                micro: 0,
                releaselevel: ReleaseLevel::Final,
                serial: 0
            },
            abi_info: CPythonAbiInfo {
                free_threaded: None,
                debug: false,
                pymalloc: None,
                ucs4: None
            },
        },
        parse_cpython_implementation("3.14").unwrap()
    );

    assert_eq!(
        CPythonImplementation {
            version: PythonVersion {
                major: 3,
                minor: 14,
                micro: 5,
                releaselevel: ReleaseLevel::Final,
                serial: 0
            },
            abi_info: CPythonAbiInfo {
                free_threaded: None,
                debug: false,
                pymalloc: None,
                ucs4: None
            },
        },
        parse_cpython_implementation("3.14.5").unwrap()
    );

    assert_eq!(
        CPythonImplementation {
            version: PythonVersion {
                major: 3,
                minor: 14,
                micro: 0,
                releaselevel: ReleaseLevel::Final,
                serial: 0
            },
            abi_info: CPythonAbiInfo {
                free_threaded: Some(true),
                debug: true,
                pymalloc: None,
                ucs4: None
            },
        },
        parse_cpython_implementation("3.14dt").unwrap()
    );

    assert_eq!(
        CPythonImplementation {
            version: PythonVersion {
                major: 3,
                minor: 15,
                micro: 0,
                releaselevel: ReleaseLevel::Beta,
                serial: 1
            },
            abi_info: CPythonAbiInfo {
                free_threaded: Some(true),
                debug: false,
                pymalloc: None,
                ucs4: None
            },
        },
        parse_cpython_implementation("3.15.0b1t").unwrap()
    );
}

#[test]
fn python_version_parsing_edges() {
    assert_eq!(
        parse_python_version("3.12.1a2").unwrap(),
        PythonVersion { major: 3, minor: 12, micro: 1, releaselevel: ReleaseLevel::Alpha, serial: 2 }
    );
    assert_eq!(
        parse_python_version("2.7.18final0").unwrap(),
        PythonVersion { major: 2, minor: 7, micro: 18, releaselevel: ReleaseLevel::Final, serial: 0 }
    );
    assert_eq!(parse_python_version("3"), Err(VersionError::InvalidPythonVersion));
    assert_eq!(parse_python_version("3.256"), Err(VersionError::InvalidPythonVersion));
    assert_eq!(parse_python_version("3.14.1rc1"), Err(VersionError::InvalidPythonVersion));
    assert_eq!(parse_python_version("3.14.1b"), Err(VersionError::InvalidPythonVersion));
}

#[test]
fn cpython_flag_errors() {
    assert_eq!(parse_cpython_implementation("3.12t"), Err(VersionError::FreeThreadedBefore313));
    assert_eq!(parse_cpython_implementation("3.8m"), Err(VersionError::PymallocFrom38));
    assert_eq!(parse_cpython_implementation("3.3u"), Err(VersionError::Ucs4From33));
    let old = parse_cpython_implementation("2.7mu").unwrap();
    assert!(old.pymalloc());
    assert!(old.ucs4());
    assert!(!old.free_threaded());
    assert!(!old.debug());
}

#[test]
fn pypy_parsing() {
    let pypy = parse_pypy_implementation("3.11_7.3").unwrap();
    assert_eq!(pypy.version, PythonVersion::simple(3, 11));
    assert_eq!(pypy.pypy_version, Some(PyPyVersion::from_parts(7, 3, 0)));
    assert_eq!(pypy.pypy_version.unwrap().major(), 7);
    assert_eq!(pypy.pypy_version.unwrap().minor(), 3);
    assert_eq!(pypy.pypy_version.unwrap().patch(), 0);
    assert_eq!(parse_pypy_implementation("3.11_x"), Err(VersionError::InvalidPyPyVersion));
    match parse(Implementation::PyPy, "2.7.18_7.3.1").unwrap() {
        PythonImplementation::PyPy(p) => {
            assert_eq!(p.version, PythonVersion::new(2, 7, Some(18)));
            assert_eq!(p.pypy_version, Some(PyPyVersion::from_parts(7, 3, 1)));
        }
        PythonImplementation::CPython(_) => panic!("expected PyPy"),
    }
}

#[test]
fn version_text() {
    assert_eq!(PythonVersion::simple(3, 14).to_string(), "3.14.0");
    let v = PythonVersion { major: 3, minor: 15, micro: 0, releaselevel: ReleaseLevel::Beta, serial: 1 };
    assert_eq!(v.to_string(), "3.15.0b1");
    let v = PythonVersion { major: 3, minor: 13, micro: 0, releaselevel: ReleaseLevel::Rc, serial: 2 };
    assert_eq!(v.to_string(), "3.13.0rc2");
    assert!(PythonVersion::simple(3, 12).precedes(&PythonVersion::simple(3, 13)));
    assert!(PythonVersion::simple(3, 13).precedes(&v));
    assert!(!v.precedes(&PythonVersion::simple(3, 13)));
}
