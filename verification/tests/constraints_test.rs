use std::str::FromStr;

use pep440_rs::VersionSpecifiers;
use pexrc::constraints::{
    calculate_compatible_binary_names, ConstraintError, InterpreterConstraint, SpecifiersSource,
    InterpreterConstraints, InterpreterImplementation, SelectionStrategy, VersionSpec,
};
use pexrc::version::{parse_cpython_implementation, PythonImplementation};

fn assert_constraint(
    constraint: &str,
    implementation: Option<InterpreterImplementation>,
    version_specifiers: Option<&str>,
) {
    let parsed = InterpreterConstraint::parse(constraint).unwrap();
    assert_eq!(implementation, parsed.implementation);
    assert_eq!(
        version_specifiers.map(|v| VersionSpecifiers::from_str(v).unwrap()),
        parsed.version_specifiers()
    );
}

#[test]
fn test_parse_interpreter_constraint() {
    assert_constraint(">=3.14", None, Some(">=3.14"));
    assert_constraint("CPython", Some(InterpreterImplementation::CPython), None);
    assert_constraint("CPython+t", Some(InterpreterImplementation::CPythonFreeThreaded), None);
    assert_constraint(
        "CPython+t==3.15.*",
        Some(InterpreterImplementation::CPythonFreeThreaded),
        Some("==3.15.*"),
    );
    assert_constraint("CPython-t", Some(InterpreterImplementation::CPythonGil), None);
    assert_constraint(
        "CPython-t==3.13.*",
        Some(InterpreterImplementation::CPythonGil),
        Some("==3.13.*"),
    );
    assert_constraint(
        "CPython[free-threaded]",
        Some(InterpreterImplementation::CPythonFreeThreaded),
        None,
    );
    assert_constraint("CPython[gil]", Some(InterpreterImplementation::CPythonGil), None);
    assert_constraint("PyPy", Some(InterpreterImplementation::PyPy), None);
}

#[test]
fn constraint_errors() {
    assert_eq!(
        InterpreterConstraint::parse("Jython").err(),
        Some(ConstraintError::InvalidImplementation)
    );
    assert_eq!(
        InterpreterConstraint::parse("CPython; python_version > '3'").err(),
        Some(ConstraintError::MarkersNotSupported)
    );
    assert_eq!(
        InterpreterConstraint::parse("CPython @ https://example.com/python").err(),
        Some(ConstraintError::UrlNotSupported)
    );
    assert_eq!(
        InterpreterConstraint::parse("CPython+tfoo").err(),
        Some(ConstraintError::InvalidVersionSpecifiers)
    );
    assert_eq!(
        InterpreterConstraint::parse("!!").err(),
        Some(ConstraintError::InvalidRequirement)
    );
}

fn names(constraints: &InterpreterConstraints, strategy: SelectionStrategy) -> Vec<String> {
    calculate_compatible_binary_names(constraints, strategy, None, true)
        .into_iter()
        .map(|(name, _)| name)
        .collect()
}

fn index_of(names: &[String], name: &str) -> usize {
    names.iter().position(|n| n == name).unwrap()
}

const EXPECTED_PER_PEXRC_MAJOR_MINOR: &[&str] = &[
    "python3.15",
    "python3.15t",
    "pypy3.15",
    "python3.14",
    "python3.14t",
    "pypy3.14",
    "python3.13",
    "python3.13t",
    "pypy3.13",
    "python3.12",
    "pypy3.12",
    "python3.11",
    "pypy3.11",
    "python3.10",
    "pypy3.10",
    "python3.9",
    "pypy3.9",
    "python3.8",
    "pypy3.8",
    "python3.7",
    "pypy3.7",
    "python3.6",
    "pypy3.6",
    "python3.5",
    "pypy3.5",
    "python2.7",
    "pypy2.7",
];

const EXPECTED_PER_PEXRC_REST: &[&str] = &["python3", "pypy3", "python2", "pypy2", "python", "pypy"];

#[test]
fn test_interpreter_constraints_binary_names_all_default_order() {
    let ics = InterpreterConstraints::try_from(&[]).unwrap();
    let binary_names = names(&ics, SelectionStrategy::Oldest);

    let major_minor_start =
        binary_names.len() - EXPECTED_PER_PEXRC_REST.len() - EXPECTED_PER_PEXRC_MAJOR_MINOR.len();
    let rest_start = binary_names.len() - EXPECTED_PER_PEXRC_REST.len();

    assert_eq!(EXPECTED_PER_PEXRC_MAJOR_MINOR, &binary_names[major_minor_start..rest_start]);
    assert_eq!(EXPECTED_PER_PEXRC_REST, &binary_names[rest_start..]);
}

#[test]
fn test_interpreter_constraints_binary_names_all_newest_first() {
    let ics = InterpreterConstraints::try_from(&[]).unwrap();
    let binary_names = names(&ics, SelectionStrategy::Newest);

    assert!(index_of(&binary_names, "python3.15") < index_of(&binary_names, "pypy3.15"));
    assert!(index_of(&binary_names, "pypy3.15") < index_of(&binary_names, "python3.14"));
    assert!(index_of(&binary_names, "python3.14") < index_of(&binary_names, "pypy3.14"));
    assert!(index_of(&binary_names, "pypy3.14") < index_of(&binary_names, "python2.7"));
    assert_eq!(
        &["python2.7", "pypy2.7", "python3", "pypy3", "python2", "pypy2", "python", "pypy"],
        &binary_names[binary_names.len() - 8..]
    );
}

#[test]
fn test_interpreter_constraints_complex() {
    let ics = InterpreterConstraints::try_from(&[
        "CPython+t==3.15.*",
        "CPython[free-threaded]==3.14.*",
        "CPython-t==3.13.*",
        "CPython[gil]==3.12.*",
        "PyPy>=3.9,<3.12",
    ])
    .unwrap();

    let binary_names = names(&ics, SelectionStrategy::Newest);

    let expected_per_ics = &[
        "python3.15t",
        "python3.14t",
        "python3.13",
        "python3.12",
        "pypy3.11",
        "pypy3.10",
        "pypy3.9",
    ];

    let expected_per_pexrc_major_minor = EXPECTED_PER_PEXRC_MAJOR_MINOR
        .iter()
        .filter(|name| !expected_per_ics.contains(name))
        .copied()
        .collect::<Vec<_>>();

    let major_minor_start = binary_names.len()
        - EXPECTED_PER_PEXRC_REST.len()
        - expected_per_pexrc_major_minor.len();
    let rest_start = binary_names.len() - EXPECTED_PER_PEXRC_REST.len();

    assert_eq!(expected_per_ics, &binary_names[..expected_per_ics.len()]);
    assert_eq!(expected_per_pexrc_major_minor, &binary_names[major_minor_start..rest_start]);
    assert_eq!(EXPECTED_PER_PEXRC_REST, &binary_names[rest_start..]);

    let binary_names = names(&ics, SelectionStrategy::Oldest);

    let expected_per_ics = &[
        "pypy3.9",
        "pypy3.10",
        "pypy3.11",
        "python3.12",
        "python3.13",
        "python3.14t",
        "python3.15t",
    ];
    let expected_shared = &["pypy3", "python3", "python2", "pypy2", "pypy", "python"];

    let rest_start = binary_names.len() - expected_shared.len();

    assert_eq!(expected_per_ics, &binary_names[..expected_per_ics.len()]);
    assert_eq!(expected_per_pexrc_major_minor, &binary_names[major_minor_start..rest_start]);
    assert_eq!(expected_shared, &binary_names[rest_start..]);
}

#[test]
fn binary_names_carry_versions() {
    let ics = InterpreterConstraints::try_from(&["PyPy==3.10.*"]).unwrap();
    let names = calculate_compatible_binary_names(&ics, SelectionStrategy::Oldest, None, false);
    assert_eq!(
        names,
        vec![
            ("pypy3.10".to_string(), Some(VersionSpec::MajorMinor(3, 10))),
            ("pypy3".to_string(), Some(VersionSpec::Major(3))),
            ("pypy".to_string(), None),
        ]
    );
}

#[test]
fn preferred_interpreter_comes_first() {
    let ics = InterpreterConstraints::try_from(&[">=3.12"]).unwrap();
    let preferred = PythonImplementation::CPython(parse_cpython_implementation("3.13t").unwrap());
    let names = calculate_compatible_binary_names(&ics, SelectionStrategy::Oldest, Some(preferred), false);
    assert_eq!(names[0].0, "python3.13t");
    assert!(ics.contains(preferred));
    assert!(!ics.contains_version(3, 11));
    assert!(ics.contains_version(3, 12));
    let pypy_only = InterpreterConstraints::try_from(&["PyPy"]).unwrap();
    assert!(!pypy_only.contains(preferred));
    assert!(InterpreterImplementation::CPython.matches(InterpreterImplementation::CPythonGil));
    assert!(!InterpreterImplementation::CPythonFreeThreaded.matches(InterpreterImplementation::CPython));
    assert!(InterpreterImplementation::CPythonGil.matches(InterpreterImplementation::CPython));
}

#[test]
fn test_interpreter_constraint_to_string() {
    assert_eq!(InterpreterConstraint::parse("CPython").unwrap().to_string(), "CPython");
    assert_eq!(InterpreterConstraint::parse("CPython+t").unwrap().to_string(), "CPython+t");
    assert_eq!(InterpreterConstraint::parse("PyPy>=3.9").unwrap().to_string(), "PyPy>=3.9");
    assert_eq!(InterpreterConstraint::parse(">=3.9,<3.14").unwrap().to_string(), ">=3.9, <3.14");
}

#[test]
fn test_constraint_contains_version() {
    let c = InterpreterConstraint::parse(">=3.9,<3.14").unwrap();
    assert_eq!(c.specifiers_source, Some(SpecifiersSource::Text(">=3.9,<3.14".to_string())));
    assert!(c.contains_version(3, 12));
    assert!(!c.contains_version(3, 14));
    let c = InterpreterConstraint::parse("CPython-t==3.13.*").unwrap();
    assert_eq!(c.specifiers_source, Some(SpecifiersSource::Text("==3.13.*".to_string())));
    assert!(c.contains_version(3, 13));
    assert!(!c.contains_version(3, 12));
    let c = InterpreterConstraint::parse("PyPy>=3.10").unwrap();
    assert_eq!(c.specifiers_source, Some(SpecifiersSource::Requirement("PyPy>=3.10".to_string())));
    assert!(c.contains_version(3, 11));
    assert!(!c.contains_version(3, 9));
    let c = InterpreterConstraint::parse("CPython").unwrap();
    assert_eq!(c.specifiers_source, None);
    assert!(c.contains_version(2, 7));

    let ics = InterpreterConstraints::try_from(&["PyPy>=3.11", "CPython==3.9.*"]).unwrap();
    assert!(ics.contains_version(3, 9));
    assert!(ics.contains_version(3, 12));
    assert!(!ics.contains_version(3, 10));
    assert!(InterpreterConstraints(vec![]).contains_version(2, 7));
}

fn gil_cpython(micro: u8) -> pexrc::interpreter::InterpreterDetails {
    let mut d = gil_cpython_version(3, 14);
    d.version = pexrc::version::PythonVersion::new(3, 14, Some(micro));
    d
}

fn gil_cpython_version(major: u8, minor: u8) -> pexrc::interpreter::InterpreterDetails {
    pexrc::interpreter::InterpreterDetails {
        path: "/usr/bin/python3.14".to_string(),
        prefix: "/usr".to_string(),
        base_prefix: None,
        version: pexrc::version::PythonVersion::new(major, minor, Some(5)),
        pypy_version: None,
        cpython_abi_info: Some(pexrc::version::CPythonAbiInfo {
            free_threaded: Some(false),
            debug: false,
            pymalloc: None,
            ucs4: None,
        }),
        paths: vec![],
        has_ensurepip: true,
    }
}

#[test]
fn constraints_are_ored() {
    let ics = InterpreterConstraints::try_from(&[">=3.11,<3.14"]).unwrap();
    let cp = |v: &str| PythonImplementation::CPython(parse_cpython_implementation(v).unwrap());
    assert!(ics.contains(cp("3.11")));
    assert!(ics.contains(cp("3.13")));
    assert!(!ics.contains(cp("3.10")));
    assert!(!ics.contains(cp("3.14")));
    let ics = InterpreterConstraints::try_from(&["PyPy", "CPython==3.9.*"]).unwrap();
    assert!(ics.contains(cp("3.9")));
    assert!(!ics.contains(cp("3.10")));
    let none = InterpreterConstraints::try_from(&[] as &[&str]).unwrap();
    assert!(none.contains(cp("3.10")));
}

#[test]
fn exact_version_constraint() {
    let details = gil_cpython(5);
    let c = InterpreterConstraint::exact_version(&details);
    assert_eq!(c.to_string(), "CPython-t==3.14.*");
    assert_eq!(c.specifiers_source, Some(SpecifiersSource::Release(3, 14)));
    assert!(c.contains(details.python_implementation()));
    assert!(InterpreterConstraints(vec![c]).contains(details.python_implementation()));
    let reparsed = InterpreterConstraint::parse("CPython-t==3.14.*").unwrap();
    assert!(reparsed.contains(details.python_implementation()));
    assert!(!reparsed.contains(gil_cpython_version(3, 13).python_implementation()));
    let details = gil_cpython(0);
    let c = InterpreterConstraint::exact_version(&details);
    assert_eq!(c.to_string(), "CPython-t==3.14.*");
    assert!(c.contains(details.python_implementation()));
}

#[test]
fn constraints_built_by_hand() {
    let cp = |v: &str| PythonImplementation::CPython(parse_cpython_implementation(v).unwrap());
    let by_text = InterpreterConstraint {
        implementation: Some(InterpreterImplementation::CPython),
        specifiers_source: Some(SpecifiersSource::Text(">=3.11,<3.14".to_string())),
    };
    assert!(by_text.contains(cp("3.12")));
    assert!(!by_text.contains(cp("3.14")));
    assert_eq!(by_text.version_specifiers(), Some(VersionSpecifiers::from_str(">=3.11,<3.14").unwrap()));
    let refused = InterpreterConstraint {
        implementation: None,
        specifiers_source: Some(SpecifiersSource::Text("not a specifier".to_string())),
    };
    assert!(!refused.contains_version(3, 12));
    assert_eq!(refused.version_specifiers(), None);
    let release = InterpreterConstraint { implementation: None, specifiers_source: Some(SpecifiersSource::Release(3, 9)) };
    assert_eq!(release.version_specifiers(), Some(VersionSpecifiers::from_str("==3.9.*").unwrap()));
    let ics = InterpreterConstraints(vec![refused, release, by_text]);
    assert!(ics.contains_version(3, 9));
    assert!(ics.contains_version(3, 13));
    assert!(!ics.contains_version(3, 10));
    let open = InterpreterConstraints(vec![InterpreterConstraint { implementation: None, specifiers_source: None }]);
    assert!(open.contains_version(2, 7));
}
