use pexrc::script::{detect_posix, PythonScript, ScriptError, Shebang};
use pexrc::version::PythonVersion;

fn maybe_detect(contents: &str) -> Option<PythonScript> {
    detect_posix(contents.as_bytes(), PythonVersion::new(3, 14, None)).unwrap().unwrap()
}

fn assert_python_script(contents: &str) -> PythonScript {
    maybe_detect(contents).unwrap()
}

fn re_written(contents: &str, script: &PythonScript) -> String {
    String::from_utf8(script.re_write(contents.as_bytes())).unwrap()
}

fn plain(end: usize) -> PythonScript {
    PythonScript { is_windowed: false, shebang: Some(Shebang { end, extra_content: None }) }
}

#[test]
fn test_detect_posix_script_placeholder_shebang() {
    let script = assert_python_script("#!python");
    assert_eq!(plain(8), script);
    assert_eq!("#!python", re_written("#!python", &script));

    let script = assert_python_script("#!python\n");
    assert_eq!(plain(8), script);
    assert_eq!("#!python\n", re_written("#!python\n", &script));

    let script = assert_python_script("#!pythonw");
    assert_eq!(
        PythonScript { is_windowed: true, shebang: Some(Shebang { end: 9, extra_content: None }) },
        script
    );
    assert_eq!("#!pythonw", re_written("#!pythonw", &script));

    let script = assert_python_script("#!pythonw\n");
    assert_eq!("#!pythonw\n", re_written("#!pythonw\n", &script));
}

#[test]
fn test_detect_posix_script_shebang() {
    let contents = "#!/usr/bin/python\npass";
    let script = assert_python_script(contents);
    assert_eq!(plain(17), script);
    assert_eq!("#!python\npass", re_written(contents, &script));

    let contents = "#!/usr/bin/python3\npass";
    let script = assert_python_script(contents);
    assert_eq!(plain(18), script);
    assert_eq!("#!python\npass", re_written(contents, &script));

    let contents = "#!/usr/bin/python3.14\npass";
    let script = assert_python_script(contents);
    assert_eq!(plain(21), script);
    assert_eq!("#!python\npass", re_written(contents, &script));

    assert!(maybe_detect("#!/usr/bin/perl\npass").is_none());
}

#[test]
fn test_detect_posix_script_shebang_with_args() {
    let contents = "#!/usr/bin/python -I\npass";
    let script = assert_python_script(contents);
    assert_eq!(plain(17), script);
    assert_eq!("#!python -I\npass", re_written(contents, &script));

    let contents = "#!/usr/bin/python3.14 -I\npass";
    let script = assert_python_script(contents);
    assert_eq!(plain(21), script);
    assert_eq!("#!python -I\npass", re_written(contents, &script));

    assert!(maybe_detect("#!/usr/bin/perl -n\npass").is_none());
}

#[test]
fn test_detect_bin_sh_redirector_script_shebang() {
    let contents = "#!/bin/sh\n'''exec' /the/venv/bin/python \"$0\" \"$@\"\n'''\npass";
    let script = assert_python_script(contents);
    assert_eq!(
        PythonScript {
            is_windowed: false,
            shebang: Some(Shebang { end: 9, extra_content: Some((9, 53)) })
        },
        script
    );
    assert_eq!("#!python\npass", re_written(contents, &script));

    let contents =
        "#!/bin/sh\n# coding=utf-8\n'''exec' /the/venv/bin/python \"$0\" \"$@\"\n'''\npass";
    let script = assert_python_script(contents);
    assert_eq!(
        PythonScript {
            is_windowed: false,
            shebang: Some(Shebang { end: 9, extra_content: Some((24, 68)) })
        },
        script
    );
    assert_eq!("#!python\n# coding=utf-8\npass", re_written(contents, &script));

    let contents = "#!/bin/sh\n'''': pshprs\n/the/venv/bin/python \"$0\" \"$@\"\n'''\npass";
    let script = assert_python_script(contents);
    assert_eq!(
        PythonScript {
            is_windowed: false,
            shebang: Some(Shebang { end: 9, extra_content: Some((9, 57)) })
        },
        script
    );
    assert_eq!("#!python\npass", re_written(contents, &script));

    let contents = "#!/bin/sh\n# -*- coding: windows-1252 -*-\n'''': pshprs\n/the/venv/bin/python \"$0\" \"$@\"\n'''\npass";
    let script = assert_python_script(contents);
    assert_eq!(
        PythonScript {
            is_windowed: false,
            shebang: Some(Shebang { end: 9, extra_content: Some((40, 88)) })
        },
        script
    );
    assert_eq!("#!python\n# -*- coding: windows-1252 -*-\npass", re_written(contents, &script));
}

#[test]
fn script_detection_edges() {
    let version = PythonVersion::new(3, 14, None);
    assert_eq!(detect_posix(b"#", version), Some(Err(ScriptError::TooShort)));
    assert_eq!(detect_posix(b"print(1)", version), Some(Ok(None)));
    assert_eq!(detect_posix(b"#!/bin/sh\necho hi\n", version), Some(Ok(None)));
    assert_eq!(detect_posix(b"#!/bin/sh\n\xff\n", version), Some(Err(ScriptError::InvalidUtf8)));
    assert_eq!(
        detect_posix(b"#!/opt/PyPy/bin/PYPY\n", version),
        Some(Ok(Some(PythonScript { is_windowed: false, shebang: Some(Shebang { end: 20, extra_content: None }) })))
    );
    assert_eq!(detect_posix(b"#!/usr/bin/python2\n", version), Some(Ok(None)));
    // A /bin/sh re-direction that is never closed.
    assert_eq!(detect_posix(b"#!/bin/sh\n'''': pshprs\nexec python\n", version), None);
    let script = detect_posix(b"#!/usr/bin/python3\nprint(1)\n", version).unwrap().unwrap().unwrap();
    assert_eq!(
        script.reified_contents(b"/venv/bin/python", b"#!/usr/bin/python3\nprint(1)\n"),
        b"#!/venv/bin/python\n\nprint(1)\n".to_vec()
    );
}
