use pexrc::implementation::Implementation;
use pexrc::pyenv::{read_versions, shell_versions, PythonShim};
use pexrc::text::trim;

#[test]
fn test_shim_of_file_name() {
    let shim = PythonShim::of_file_name("python3.12").unwrap();
    assert_eq!(shim.implementation, Implementation::CPython);
    assert_eq!(shim.version, "3.12");
    let shim = PythonShim::of_file_name("pypy3").unwrap();
    assert_eq!(shim.implementation, Implementation::PyPy);
    assert_eq!(shim.version, "3");
    assert_eq!(PythonShim::of_file_name("python").unwrap().version, "");
    assert!(PythonShim::of_file_name("pip3").is_none());
}

#[test]
fn test_versions_to_try() {
    let versions: Vec<String> = vec!["3.11.9", "pypy3.10-7.3.17", "3.12.4", "system", "pypy2.7-7.3.17"]
        .into_iter()
        .map(String::from)
        .collect();
    let cpython = PythonShim::of_file_name("python3").unwrap();
    assert_eq!(cpython.versions_to_try(&versions), vec![0, 1, 2]);
    let pypy = PythonShim::of_file_name("pypy3").unwrap();
    assert_eq!(pypy.versions_to_try(&versions), vec![1]);
    let any = PythonShim::of_file_name("python").unwrap();
    assert_eq!(any.versions_to_try(&versions), vec![0, 1, 2, 3, 4]);
    assert!(cpython.version_serves("3.9"));
    assert!(!cpython.version_serves("2.7"));
}

#[test]
fn test_shell_versions() {
    assert_eq!(shell_versions("3.12.4:3.11.9"), vec!["3.12.4".to_string(), "3.11.9".to_string()]);
    assert_eq!(shell_versions(""), vec!["".to_string()]);
    assert_eq!(shell_versions("system:"), vec!["system".to_string(), "".to_string()]);
}

#[test]
fn test_read_versions() {
    assert_eq!(
        read_versions("# the versions\n  3.12.4 \r\n\n3.11.9\n"),
        vec!["3.12.4".to_string(), "".to_string(), "3.11.9".to_string()]
    );
    assert_eq!(read_versions("3.13"), vec!["3.13".to_string()]);
    assert!(read_versions("").is_empty());
    assert_eq!(read_versions("\u{3000}#not a version\n\u{a0}pypy3.10\u{2028}"), vec!["pypy3.10".to_string()]);
}

#[test]
fn test_trim() {
    let t: String = trim(&" \t3.12\u{a0}\n".chars().collect::<Vec<_>>()).into_iter().collect();
    assert_eq!(t, "3.12");
    let t: String = trim(&"   ".chars().collect::<Vec<_>>()).into_iter().collect();
    assert_eq!(t, "");
}
