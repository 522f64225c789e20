use pexrc::output::{Output, PathOutputStyle};
use pexrc::terminal::{
    path_for_terminal_output, posix_form, set_terminal_uses_posix_paths, terminal_uses_posix_paths,
    uses_posix_paths,
};

fn wp(path: &str, terminal_uses_posix_paths: bool) -> String {
    path_for_terminal_output(path, terminal_uses_posix_paths).unwrap()
}

fn assert_posix_terminal_output(expected: &str, actual: &str) {
    assert_eq!(expected, wp(actual, true).as_str());
}

fn assert_windows_terminal_output(expected: &str, actual: &str) {
    assert_eq!(expected, wp(actual, false).as_str());
}

#[test]
fn test_path_for_terminal_output() {
    assert_posix_terminal_output("/C", "C:");
    assert_posix_terminal_output("/C", r"C:\");
    assert_posix_terminal_output("/Z/foo", r"Z:\foo");
    assert_posix_terminal_output("/Z/foo", r"Z:\foo\");

    assert_windows_terminal_output("C:", "C:");
    assert_windows_terminal_output(r"C:\", r"C:\");
    assert_windows_terminal_output(r"Z:\foo", r"Z:\foo");
    assert_windows_terminal_output(r"Z:\foo\", r"Z:\foo\");
}

#[test]
fn posix_form_of_other_paths() {
    assert_eq!(posix_form(r"c:\Users\.\me\..\x"), Some("/C/Users/me/../x".to_string()));
    assert_eq!(posix_form(r"foo\bar/baz"), Some("foo/bar/baz".to_string()));
    assert_eq!(posix_form(r"\foo"), Some("//foo".to_string()));
    assert_eq!(posix_form(r".\foo"), Some("./foo".to_string()));
    assert_eq!(posix_form(r"\\?\C:\x"), Some("/C/x".to_string()));
    assert_eq!(posix_form(r"\\server\share\x"), None);
    assert_eq!(posix_form(r"\\.\COM1"), None);
    assert_eq!(posix_form(r"\\?\UNC\server\share"), None);
}

#[test]
fn terminal_detection() {
    assert!(uses_posix_paths(Some("xterm-256color"), None));
    assert!(!uses_posix_paths(Some("cygwin"), Some("/bin/bash")));
    assert!(uses_posix_paths(None, Some("/usr/bin/bash")));
    assert!(!uses_posix_paths(None, Some(r"C:\Windows\cmd.exe")));
    assert!(!uses_posix_paths(None, None));
}

#[test]
fn terminal_setting_is_settled_once() {
    let mut setting = None;
    assert_eq!(set_terminal_uses_posix_paths(&mut setting, true), None);
    assert_eq!(set_terminal_uses_posix_paths(&mut setting, false), Some(true));
    assert_eq!(setting, Some(true));
    assert!(terminal_uses_posix_paths(&mut setting, None, None));

    let mut unset = None;
    assert!(terminal_uses_posix_paths(&mut unset, Some("xterm"), None));
    assert_eq!(unset, Some(true));
}

#[test]
fn output_configures_path_style() {
    let mut setting = None;
    let auto = Output { output: None, path_style: PathOutputStyle::Auto };
    auto.configure_posix_paths(&mut setting);
    assert_eq!(setting, None);
    let windows = Output { output: Some("out.txt".to_string()), path_style: PathOutputStyle::Windows };
    windows.configure_posix_paths(&mut setting);
    assert_eq!(setting, Some(false));
    assert_eq!(PathOutputStyle::Posix.as_str(), "posix");
}
