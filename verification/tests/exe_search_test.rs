use pexrc::constraints::{BinaryName, InterpreterConstraints, PythonBinarySpec};
use pexrc::exe_search::{
    add_registry_pythons, candidates_of, named_pythons, parse_registry_version, path_file_tried, registry_checks,
    try_order, under_search_path, Candidate, RegistryPython, SeenPaths,
};

fn spec(name: BinaryName, major: u8, minor: u8) -> PythonBinarySpec {
    PythonBinarySpec { name, major, minor, free_threaded: false }
}

fn cand(path: &str, file_name: &str, file_stem: &str) -> Candidate {
    Candidate {
        path: path.to_string(),
        file_name: Some(file_name.to_string()),
        file_stem: Some(file_stem.to_string()),
    }
}

#[test]
fn test_seen_paths_yield_once() {
    let mut seen = SeenPaths::new();
    assert!(seen.visit("/usr/bin/python3.12".to_string()));
    assert!(seen.visit("/usr/bin/python3.11".to_string()));
    assert!(!seen.visit("/usr/bin/python3.12".to_string()));
    assert!(seen.contains("/usr/bin/python3.11"));
    assert!(!seen.contains("/usr/bin/python3"));
}

#[test]
fn test_parse_registry_version() {
    assert_eq!(parse_registry_version("3.12"), Some((3, 12)));
    assert_eq!(parse_registry_version("3.12.1"), Some((3, 12)));
    assert_eq!(parse_registry_version("+3.9"), Some((3, 9)));
    assert_eq!(parse_registry_version("3"), None);
    assert_eq!(parse_registry_version("3.x"), None);
    assert_eq!(parse_registry_version("3.256"), None);
}

#[test]
fn test_candidate_new() {
    let c = Candidate::new("/opt/python/bin/python3.12".to_string());
    assert_eq!(c.file_name.as_deref(), Some("python3.12"));
    assert_eq!(c.file_stem.as_deref(), Some("python3"));
}

#[test]
fn test_try_order_versioned_then_explicit() {
    let cands = vec![
        cand(r"C:\py312\python.exe", "python.exe", "python"),
        cand(r"C:\pypy\pypy.exe", "pypy.exe", "pypy"),
        cand(r"C:\tools\python3.exe", "python3.exe", "python3"),
        cand(r"C:\tools\other.exe", "other.exe", "other"),
    ];
    let specs = vec![spec(BinaryName::Python, 3, 12), spec(BinaryName::PyPy, 3, 12), spec(BinaryName::Python, 3, 11)];
    let versioned = vec![((3, 12), vec![1, 0])];
    let explicit = vec![3, 2];
    let (order, stems) = try_order(&cands, &specs, versioned, &explicit, None);
    // python 3.12 takes the CPython, then pypy 3.12 the PyPy left over; then
    // the explicit ones stem by stem.
    assert_eq!(order, vec![0, 1, 2]);
    assert_eq!(stems, vec!["python", "pypy"]);

    let versioned = vec![((3, 12), vec![1, 0])];
    let (order, stems) = try_order(&cands, &specs, versioned, &explicit, Some("python3.exe"));
    assert_eq!(order, vec![2]);
    assert!(stems.is_empty());
}

#[test]
fn test_path_file_tried() {
    let stems = vec!["python", "pypy"];
    let c = cand("/usr/bin/pypy3", "pypy3", "pypy3");
    assert!(path_file_tried(&c, false, true, None, &stems));
    assert!(!path_file_tried(&c, true, true, None, &stems));
    assert!(!path_file_tried(&c, false, false, None, &stems));
    assert!(!path_file_tried(&c, false, true, Some("python3"), &stems));
    assert!(path_file_tried(&c, false, true, Some("pypy3"), &stems));
    let other = cand("/usr/bin/ruby", "ruby", "ruby");
    assert!(!path_file_tried(&other, false, true, None, &stems));
}

#[test]
fn test_registry_pythons() {
    let named = vec![r"C:\a\python.exe".to_string(), r"C:\a\python.exe".to_string()];
    let mut known = named_pythons(&named);
    assert_eq!(known.paths, vec![r"C:\a\python.exe".to_string()]);
    assert_eq!(known.explicit, vec![0]);

    let entry = |company: &str, version: Option<&str>, path: Option<&str>| RegistryPython {
        company: company.to_string(),
        sys_version: version.map(String::from),
        path: path.map(String::from),
    };
    let entries = vec![
        entry("PythonCore", Some("3.12"), Some(r"C:\py312\python.exe")),
        entry("PyLauncher", Some("3.11"), Some(r"C:\launcher\py.exe")),
        entry("PythonCore", None, Some(r"C:\py27\python.exe")),
        entry("PythonCore", Some("3.12"), Some(r"C:\a\python.exe")),
        entry("PythonCore", Some("3.9"), Some(r"C:\py39\python.exe")),
        entry("PythonCore", Some("3.12"), None),
    ];
    let constraints = InterpreterConstraints(vec![]);
    let (admitted, under) = registry_checks(&constraints, &entries, None);
    assert_eq!(admitted, vec![true; 6]);
    assert_eq!(under, vec![true; 6]);
    let admitted = vec![true, true, true, true, false, true];
    add_registry_pythons(&mut known, &entries, &admitted, &under);
    assert_eq!(
        known.paths,
        vec![r"C:\a\python.exe".to_string(), r"C:\py312\python.exe".to_string(), r"C:\py27\python.exe".to_string()]
    );
    assert_eq!(known.explicit, vec![0, 2]);
    assert_eq!(known.versioned, vec![((3, 12), vec![1])]);
    let cands = candidates_of(&known.paths);
    assert_eq!(cands.len(), 3);
    assert_eq!(cands[1].path, r"C:\py312\python.exe");
}

#[test]
fn test_under_search_path() {
    let entries = vec!["/usr".to_string(), "/opt/pythons".to_string()];
    assert!(under_search_path("/usr/bin/python3", Some(&entries)));
    assert!(under_search_path("/opt/pythons/3.12/bin/python", Some(&entries)));
    assert!(!under_search_path("/opt/pythonsx/bin/python", Some(&entries)));
    assert!(!under_search_path("/home/me/python", Some(&entries)));
    assert!(under_search_path("/home/me/python", None));
    assert!(!under_search_path("/home/me/python", Some(&vec![])));
    assert!(under_search_path("/usr", Some(&entries)));
}
