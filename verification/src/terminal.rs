//! How Windows paths are shown on a terminal: as they are, or in the POSIX
//! style of shells such as Git Bash (`C:\foo` as `/C/foo`).

use vstd::prelude::*;
use vstd::string::StringExecFns;

use crate::text::{char_seqs, chars_of, push_char, split_all, split_chars, string_of, sub_chars};

verus! {

/// Whether `c` separates the components of a Windows path.
pub open spec fn is_sep(c: char) -> bool {
    c == '\\' || c == '/'
}

/// The ASCII upper-case form of `c`.
pub open spec fn ascii_upper(c: char) -> char {
    if 'a' <= c <= 'z' {
        ((c as u32) - 32) as char
    } else {
        c
    }
}

/// Whether `c` is an ASCII letter.
pub open spec fn is_ascii_alpha(c: char) -> bool {
    ('a' <= c <= 'z') || ('A' <= c <= 'Z')
}

/// The prefix a Windows path starts with, as far as showing it goes: a drive
/// (`C:`), a verbatim drive (`\\?\C:`), a verbatim prefix (`\\?\name`, held
/// by the length of the name) or one of the kinds that have no POSIX form
/// (`\\server\share`, `\\?\UNC\server\share`, `\\.\device`).
#[derive(Copy, Clone, Debug, PartialEq, Eq)]
pub enum PathPrefix {
    NoPrefix,
    Disk(char),
    VerbatimDisk(char),
    Verbatim(usize),
    Other,
}

/// `c`, with `/` read as `\` as Windows does when it looks for a prefix.
pub open spec fn prefix_char(c: char) -> char {
    if c == '/' {
        '\\'
    } else {
        c
    }
}

/// The length of the first component of `s`: up to its first separator,
/// which for a verbatim path is only `\`.
pub open spec fn first_component_len(s: Seq<char>, verbatim: bool) -> nat
    decreases s.len(),
{
    if s.len() == 0 || s[0] == '\\' || (!verbatim && s[0] == '/') {
        0
    } else {
        1 + first_component_len(s.drop_first(), verbatim)
    }
}

proof fn lemma_first_component_len_bound(s: Seq<char>, verbatim: bool)
    ensures
        first_component_len(s, verbatim) <= s.len(),
    decreases s.len(),
{
    if s.len() > 0 && s[0] != '\\' && (verbatim || s[0] != '/') {
        lemma_first_component_len_bound(s.drop_first(), verbatim);
    }
}

/// Whether `s` is exactly a drive (`C:`) or starts with one and a `\`.
pub open spec fn is_exact_drive(s: Seq<char>) -> bool {
    &&& s.len() >= 2
    &&& is_ascii_alpha(s[0])
    &&& s[1] == ':'
    &&& (s.len() == 2 || s[2] == '\\')
}

/// The prefix of the Windows path `p`, as the Windows path rules find it.
pub open spec fn spec_path_prefix(p: Seq<char>) -> PathPrefix {
    if p.len() >= 2 && prefix_char(p[0]) == '\\' && prefix_char(p[1]) == '\\' {
        if p.len() >= 4 && p[2] == '?' && p[3] == '\\' && p[0] == '\\' && p[1] == '\\' {
            if p.len() >= 8 && p[4] == 'U' && p[5] == 'N' && p[6] == 'C' && prefix_char(p[7]) == '\\' {
                PathPrefix::Other
            } else {
                let r = p.skip(4);
                if is_exact_drive(r) {
                    PathPrefix::VerbatimDisk(ascii_upper(r[0]))
                } else {
                    PathPrefix::Verbatim(first_component_len(r, true) as usize)
                }
            }
        } else if p.len() >= 4 && p[2] == '.' && prefix_char(p[3]) == '\\' {
            PathPrefix::Other
        } else {
            let r = p.skip(2);
            let server = first_component_len(r, false);
            let rest = if server < r.len() {
                r.skip(server as int + 1)
            } else {
                Seq::<char>::empty()
            };
            if server > 0 && first_component_len(rest, false) > 0 {
                PathPrefix::Other
            } else {
                PathPrefix::NoPrefix
            }
        }
    } else if p.len() >= 2 && is_ascii_alpha(p[0]) && p[1] == ':' {
        PathPrefix::Disk(ascii_upper(p[0]))
    } else {
        PathPrefix::NoPrefix
    }
}

/// The number of characters a prefix takes.
pub open spec fn prefix_len(prefix: PathPrefix) -> nat {
    match prefix {
        PathPrefix::Disk(_) => 2,
        PathPrefix::VerbatimDisk(_) => 6,
        PathPrefix::Verbatim(n) => (4 + n) as nat,
        _ => 0,
    }
}

/// `s` with each `/` read as `\`.
pub open spec fn backslashed(s: Seq<char>) -> Seq<char> {
    s.map_values(|c: char| prefix_char(c))
}

/// The parts of the body of a path between its separators.
pub open spec fn body_parts(body: Seq<char>, verbatim: bool) -> Seq<Seq<char>> {
    if verbatim {
        split_all(body, '\\')
    } else {
        split_all(backslashed(body), '\\')
    }
}

/// The body components joined by `/`, with a leading `/` once something was
/// written: empty parts are dropped, and `.` too outside verbatim paths.
pub open spec fn render_parts(parts: Seq<Seq<char>>, started: bool, verbatim: bool) -> Seq<char>
    decreases parts.len(),
{
    if parts.len() == 0 {
        Seq::<char>::empty()
    } else {
        let p = parts[0];
        if p.len() == 0 || (p == "."@ && !verbatim) {
            render_parts(parts.drop_first(), started, verbatim)
        } else {
            (if started {
                "/"@
            } else {
                Seq::<char>::empty()
            }) + p + render_parts(parts.drop_first(), true, verbatim)
        }
    }
}

/// The POSIX form of the Windows path `p`: a drive `C:` as `/C`, a verbatim
/// prefix as its name, then the components separated by `/`; `None` for a
/// UNC or device prefix, which have no such form.
pub open spec fn spec_posix_form(p: Seq<char>) -> Option<Seq<char>> {
    let prefix = spec_path_prefix(p);
    match prefix {
        PathPrefix::Other => None,
        _ => {
            let has_prefix = prefix != PathPrefix::NoPrefix;
            let drive = prefix is Disk || prefix is VerbatimDisk;
            let verbatim = prefix is Verbatim || prefix is VerbatimDisk;
            let first = match prefix {
                PathPrefix::Disk(c) => seq!['/', c],
                PathPrefix::VerbatimDisk(c) => seq!['/', c],
                PathPrefix::Verbatim(n) => p.subrange(4, 4 + n),
                _ => Seq::<char>::empty(),
            };
            let rest = p.skip(prefix_len(prefix) as int);
            let physical_root = rest.len() > 0 && is_sep(rest[0]);
            let cur_dir = !physical_root && !verbatim && rest.len() > 0 && rest[0] == '.' && (rest.len()
                == 1 || is_sep(rest[1]));
            let body = if physical_root || cur_dir {
                rest.skip(1)
            } else {
                rest
            };
            let head = if physical_root {
                (if has_prefix && !drive {
                    "/"@
                } else {
                    Seq::<char>::empty()
                }) + (if drive {
                    Seq::<char>::empty()
                } else {
                    "/"@
                })
            } else if cur_dir {
                (if has_prefix {
                    "/"@
                } else {
                    Seq::<char>::empty()
                }) + "."@
            } else {
                Seq::<char>::empty()
            };
            let started = has_prefix || physical_root || cur_dir;
            Some(first + head + render_parts(body_parts(body, verbatim), started, verbatim))
        },
    }
}

/// How the path `p` is shown: in POSIX form when the terminal uses POSIX
/// paths (`None` when the path has none), else as it is.
pub open spec fn spec_terminal_output(p: Seq<char>, terminal_uses_posix_paths: bool) -> Option<Seq<char>> {
    if terminal_uses_posix_paths {
        spec_posix_form(p)
    } else {
        Some(p)
    }
}

fn upper_char(c: char) -> (r: char)
    ensures
        r == ascii_upper(c),
{
    if 'a' <= c && c <= 'z' {
        let code: u32 = c as u32 - 32;
        let b: u8 = code as u8;
        b as char
    } else {
        c
    }
}

fn component_len(s: &[char], from: usize, verbatim: bool) -> (n: usize)
    requires
        from <= s.len(),
    ensures
        n == first_component_len(s@.skip(from as int), verbatim),
        from + n <= s.len(),
{
    let mut i: usize = from;
    while i < s.len() && s[i] != '\\' && (verbatim || s[i] != '/')
        invariant
            from <= i <= s.len(),
            first_component_len(s@.skip(from as int), verbatim) == (i - from) + first_component_len(
                s@.skip(i as int),
                verbatim,
            ),
        decreases s.len() - i,
    {
        assert(s@.skip(i as int).drop_first() =~= s@.skip(i + 1));
        i = i + 1;
    }
    i - from
}

fn is_exact_drive_at(s: &[char], from: usize) -> (res: bool)
    requires
        from <= s.len(),
    ensures
        res == is_exact_drive(s@.skip(from as int)),
{
    let n = s.len() - from;
    n >= 2 && (('a' <= s[from] && s[from] <= 'z') || ('A' <= s[from] && s[from] <= 'Z')) && s[from + 1]
        == ':' && (n == 2 || s[from + 2] == '\\')
}

fn as_prefix_char(c: char) -> (r: char)
    ensures
        r == prefix_char(c),
{
    if c == '/' {
        '\\'
    } else {
        c
    }
}

/// The prefix of the Windows path `p`.
pub fn path_prefix(p: &[char]) -> (prefix: PathPrefix)
    ensures
        prefix == spec_path_prefix(p@),
{
    let n = p.len();
    if n >= 2 && as_prefix_char(p[0]) == '\\' && as_prefix_char(p[1]) == '\\' {
        if n >= 4 && p[2] == '?' && p[3] == '\\' && p[0] == '\\' && p[1] == '\\' {
            if n >= 8 && p[4] == 'U' && p[5] == 'N' && p[6] == 'C' && as_prefix_char(p[7]) == '\\' {
                PathPrefix::Other
            } else if is_exact_drive_at(p, 4) {
                assert(p@.skip(4)[0] == p@[4]);
                PathPrefix::VerbatimDisk(upper_char(p[4]))
            } else {
                let len = component_len(p, 4, true);
                PathPrefix::Verbatim(len)
            }
        } else if n >= 4 && p[2] == '.' && as_prefix_char(p[3]) == '\\' {
            PathPrefix::Other
        } else {
            let server = component_len(p, 2, false);
            let ghost r = p@.skip(2);
            let share = if 2 + server < n {
                assert(r.skip(server + 1) =~= p@.skip(2 + server + 1));
                component_len(p, 2 + server + 1, false)
            } else {
                assert(first_component_len(Seq::<char>::empty(), false) == 0);
                0
            };
            if server > 0 && share > 0 {
                PathPrefix::Other
            } else {
                PathPrefix::NoPrefix
            }
        }
    } else if n >= 2 && (('a' <= p[0] && p[0] <= 'z') || ('A' <= p[0] && p[0] <= 'Z')) && p[1] == ':' {
        PathPrefix::Disk(upper_char(p[0]))
    } else {
        PathPrefix::NoPrefix
    }
}

fn backslash_all(s: &[char]) -> (v: Vec<char>)
    ensures
        v@ == backslashed(s@),
{
    let mut v: Vec<char> = Vec::new();
    let mut i: usize = 0;
    while i < s.len()
        invariant
            i <= s.len(),
            v@ == backslashed(s@.take(i as int)),
        decreases s.len() - i,
    {
        v.push(as_prefix_char(s[i]));
        assert(backslashed(s@.take(i + 1)) =~= backslashed(s@.take(i as int)).push(prefix_char(s@[i as int])));
        i = i + 1;
    }
    assert(s@.take(s@.len() as int) =~= s@);
    v
}

/// Appends the body components `parts` as [`render_parts`] shows them.
fn push_parts(out: &mut String, parts: &Vec<Vec<char>>, started: bool, verbatim: bool)
    ensures
        final(out)@ == old(out)@ + render_parts(char_seqs(parts@), started, verbatim),
{
    let ghost ps = char_seqs(parts@);
    let ghost start = out@;
    let mut started = started;
    let ghost started0 = started;
    let dot = chars_of(".");
    proof {
        reveal_strlit(".");
    }
    let mut i: usize = 0;
    assert(ps.skip(0) =~= ps);
    assert(out@ =~= start + Seq::<char>::empty());
    while i < parts.len()
        invariant
            i <= parts@.len(),
            ps == char_seqs(parts@),
            dot@ == "."@,
            start + render_parts(ps, started0, verbatim) == out@ + render_parts(ps.skip(i as int), started, verbatim),
        decreases parts.len() - i,
    {
        let part = &parts[i];
        assert(ps.skip(i as int)[0] == part@);
        assert(ps.skip(i as int).drop_first() =~= ps.skip(i + 1));
        let ghost before = out@;
        let skip = part.len() == 0 || (!verbatim && crate::text::chars_eq(part.as_slice(), dot.as_slice()));
        if !skip {
            if started {
                out.append("/");
            }
            let ghost mid = out@;
            let text = string_of(part.as_slice());
            out.append(text.as_str());
            proof {
                if started {
                    vstd::seq_lib::lemma_concat_associative(before, "/"@, part@);
                    vstd::seq_lib::lemma_concat_associative(before + "/"@ + part@, render_parts(ps.skip(i + 1), true, verbatim), Seq::<char>::empty());
                    assert(before + ("/"@ + part@ + render_parts(ps.skip(i + 1), true, verbatim)) =~= before + "/"@ + part@ + render_parts(ps.skip(i + 1), true, verbatim));
                } else {
                    assert(before + (Seq::<char>::empty() + part@ + render_parts(ps.skip(i + 1), true, verbatim)) =~= before + part@ + render_parts(ps.skip(i + 1), true, verbatim));
                }
            }
            started = true;
        }
        i = i + 1;
    }
    assert(ps.skip(i as int) =~= Seq::<Seq<char>>::empty());
}

/// The POSIX form of the Windows path `path`, as [`spec_posix_form`] gives it.
pub fn posix_form(path: &str) -> (res: Option<String>)
    ensures
        match res {
            Some(s) => spec_posix_form(path@) == Some(s@),
            None => spec_posix_form(path@) is None,
        },
{
    let p = chars_of(path);
    let prefix = path_prefix(p.as_slice());
    let (mut out, plen, has_prefix, drive, verbatim) = match prefix {
        PathPrefix::Other => {
            return None;
        },
        PathPrefix::NoPrefix => (String::new(), 0, false, false, false),
        PathPrefix::Disk(c) => {
            let mut s = String::new();
            push_char(&mut s, '/');
            push_char(&mut s, c);
            (s, 2, true, true, false)
        },
        PathPrefix::VerbatimDisk(c) => {
            let mut s = String::new();
            push_char(&mut s, '/');
            push_char(&mut s, c);
            (s, 6, true, true, true)
        },
        PathPrefix::Verbatim(n) => {
            proof {
                lemma_first_component_len_bound(p@.skip(4), true);
                assert(p@.len() >= 4);
                assert(p@.skip(4).len() == p@.len() - 4);
                assert(p@.len() == p.len());
                assert(n as nat == first_component_len(p@.skip(4), true));
            }
            let name = sub_chars(p.as_slice(), 4, 4 + n);
            (string_of(name.as_slice()), 4 + n, true, false, true)
        },
    };
    proof {
        match prefix {
            PathPrefix::Disk(c) => {
                assert(out@ =~= seq!['/', c]);
            },
            PathPrefix::VerbatimDisk(c) => {
                assert(out@ =~= seq!['/', c]);
            },
            _ => {},
        }
    }
    assert(plen <= p.len()) by {
        if prefix is Verbatim {
            lemma_first_component_len_bound(p@.skip(4), true);
        }
    }
    let ghost first = out@;
    let rest = sub_chars(p.as_slice(), plen, p.len());
    assert(rest@ =~= p@.skip(plen as int));
    let physical_root = rest.len() > 0 && (rest[0] == '\\' || rest[0] == '/');
    let cur_dir = !physical_root && !verbatim && rest.len() > 0 && rest[0] == '.' && (rest.len() == 1
        || rest[1] == '\\' || rest[1] == '/');
    let body = if physical_root || cur_dir {
        sub_chars(rest.as_slice(), 1, rest.len())
    } else {
        sub_chars(rest.as_slice(), 0, rest.len())
    };
    if physical_root {
        if has_prefix && !drive {
            out.append("/");
        }
        if !drive {
            out.append("/");
        }
    } else if cur_dir {
        if has_prefix {
            out.append("/");
        }
        out.append(".");
    }
    let ghost head_out = out@;
    let parts = if verbatim {
        split_chars(body.as_slice(), '\\')
    } else {
        let normalized = backslash_all(body.as_slice());
        split_chars(normalized.as_slice(), '\\')
    };
    let started = has_prefix || physical_root || cur_dir;
    push_parts(&mut out, &parts, started, verbatim);
    proof {
        let head = if physical_root {
            (if has_prefix && !drive {
                "/"@
            } else {
                Seq::<char>::empty()
            }) + (if drive {
                Seq::<char>::empty()
            } else {
                "/"@
            })
        } else if cur_dir {
            (if has_prefix {
                "/"@
            } else {
                Seq::<char>::empty()
            }) + "."@
        } else {
            Seq::<char>::empty()
        };
        assert(head_out =~= first + head);
        if physical_root || cur_dir {
            assert(body@ =~= rest@.skip(1));
        } else {
            assert(body@ =~= rest@);
        }
    }
    Some(out)
}

/// How the path is shown on the terminal: in POSIX form when the terminal
/// uses POSIX paths (`None` when the path has none), else as it is.
pub fn path_for_terminal_output(path: &str, terminal_uses_posix_paths: bool) -> (res: Option<String>)
    ensures
        match res {
            Some(s) => spec_terminal_output(path@, terminal_uses_posix_paths) == Some(s@),
            None => spec_terminal_output(path@, terminal_uses_posix_paths) is None,
        },
{
    if terminal_uses_posix_paths {
        posix_form(path)
    } else {
        Some(String::from_str(path))
    }
}

/// Whether the text `s` occurs in `t`.
pub open spec fn contains_text(t: Seq<char>, s: Seq<char>) -> bool {
    exists|i: int| 0 <= i && i + s.len() <= t.len() && #[trigger] t.subrange(i, i + s.len()) == s
}

/// Whether `text` occurs in `t`.
pub fn text_contains(t: &str, text: &str) -> (res: bool)
    ensures
        res == contains_text(t@, text@),
{
    let tc = chars_of(t);
    let sc = chars_of(text);
    if sc.len() > tc.len() {
        return false;
    }
    let last = tc.len() - sc.len();
    let mut i: usize = 0;
    loop
        invariant
            sc.len() <= tc.len(),
            last == tc.len() - sc.len(),
            tc@ == t@,
            sc@ == text@,
            i <= last,
            forall|j: int| 0 <= j < i ==> #[trigger] tc@.subrange(j, j + sc@.len()) != sc@,
        ensures
            forall|j: int| 0 <= j <= last ==> #[trigger] tc@.subrange(j, j + sc@.len()) != sc@,
        decreases last - i,
    {
        let window = sub_chars(tc.as_slice(), i, i + sc.len());
        if crate::text::chars_eq(window.as_slice(), sc.as_slice()) {
            assert(tc@.subrange(i as int, i + sc@.len()) == sc@);
            return true;
        }
        assert(tc@.subrange(i as int, i + sc@.len()) != sc@);
        if i == last {
            break;
        }
        i = i + 1;
    }
    assert forall|j: int| 0 <= j && j + sc@.len() <= tc@.len() implies #[trigger] tc@.subrange(j, j + sc@.len()) != sc@ by {
        assert(j <= last);
    }
    false
}

/// Whether the terminal uses POSIX paths, judged from the `TERM` and `SHELL`
/// environment variables: an `xterm` terminal does; else a shell named by a
/// POSIX path (one holding `/`) does; else not.
pub open spec fn spec_uses_posix_paths(term: Option<Seq<char>>, shell: Option<Seq<char>>) -> bool {
    match term {
        Some(t) => contains_text(t, "xterm"@),
        None => match shell {
            Some(s) => contains_text(s, "/"@),
            None => false,
        },
    }
}

/// The text of an optional string slice.
pub open spec fn opt_text(s: Option<&str>) -> Option<Seq<char>> {
    match s {
        Some(s) => Some(s@),
        None => None,
    }
}

/// Whether the terminal uses POSIX paths, judged from the values of the
/// `TERM` and `SHELL` environment variables, where they are set.
pub fn uses_posix_paths(term: Option<&str>, shell: Option<&str>) -> (res: bool)
    ensures
        res == spec_uses_posix_paths(opt_text(term), opt_text(shell)),
{
    match term {
        Some(t) => text_contains(t, "xterm"),
        None => match shell {
            Some(s) => text_contains(s, "/"),
            None => false,
        },
    }
}

/// Settles whether the terminal uses POSIX paths, unless that was settled
/// before: then the setting stays and the earlier value is returned.
pub fn set_terminal_uses_posix_paths(setting: &mut Option<bool>, terminal_uses_posix_paths: bool) -> (previous:
    Option<bool>)
    ensures
        previous == *old(setting),
        *final(setting) == match *old(setting) {
            Some(v) => Some(v),
            None => Some(terminal_uses_posix_paths),
        },
{
    match *setting {
        Some(v) => Some(v),
        None => {
            *setting = Some(terminal_uses_posix_paths);
            None
        },
    }
}

/// Whether the terminal uses POSIX paths: the settled value, else the one
/// judged from `TERM` and `SHELL`, which then becomes the setting.
pub fn terminal_uses_posix_paths(setting: &mut Option<bool>, term: Option<&str>, shell: Option<&str>) -> (res:
    bool)
    ensures
        res == match *old(setting) {
            Some(v) => v,
            None => spec_uses_posix_paths(opt_text(term), opt_text(shell)),
        },
        *final(setting) == Some(res),
{
    match *setting {
        Some(v) => v,
        None => {
            let v = uses_posix_paths(term, shell);
            *setting = Some(v);
            v
        },
    }
}

} // verus!
