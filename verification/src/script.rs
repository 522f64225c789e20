//! Recognising Python scripts installed in a virtual environment by their
//! shebang line, so that they can be re-written for another interpreter.

use vstd::prelude::*;
use vstd::string::StringExecFns;

use crate::text::dec;
use crate::version::PythonVersion;

verus! {

/// The shebang of a Python script: where the interpreter named by its first
/// line ends, and the byte range of the `/bin/sh` re-direction lines that
/// follow it, if any.
#[derive(Copy, Clone, Debug, PartialEq, Eq)]
pub struct Shebang {
    pub end: usize,
    pub extra_content: Option<(usize, usize)>,
}

/// A Python script: whether it runs without a console window, and its
/// shebang.
#[derive(Copy, Clone, Debug, PartialEq, Eq)]
pub struct PythonScript {
    pub is_windowed: bool,
    pub shebang: Option<Shebang>,
}

/// Why a script could not be examined.
#[derive(Copy, Clone, Debug, PartialEq, Eq)]
pub enum ScriptError {
    /// Fewer than the two bytes of a `#!`.
    TooShort,
    /// A line read as text is not UTF-8.
    InvalidUtf8,
}

/// The bytes of the ASCII text `s`.
pub open spec fn bytes_of(s: Seq<char>) -> Seq<u8> {
    s.map_values(|c: char| (c as u32) as u8)
}

/// Where the line starting at `pos` ends: after its `\n`, or at the end.
pub open spec fn line_end(c: Seq<u8>, pos: int) -> int
    decreases c.len() - pos,
{
    if pos >= c.len() {
        c.len() as int
    } else if c[pos] == 10 {
        pos + 1
    } else {
        line_end(c, pos + 1)
    }
}

/// The line starting within the content ends after its start and within
/// the content, and holds no `\n` but its last byte.
pub proof fn lemma_line_end(c: Seq<u8>, pos: int)
    requires
        0 <= pos,
    ensures
        pos <= c.len() ==> pos <= line_end(c, pos) <= c.len(),
        pos < c.len() ==> pos < line_end(c, pos),
        no_newline(c, pos, line_end(c, pos) - 1),
    decreases c.len() - pos,
{
    if pos < c.len() && c[pos] != 10 {
        lemma_line_end(c, pos + 1);
    }
}

/// The ASCII lower-case form of a byte.
pub open spec fn lower_byte(b: u8) -> u8 {
    if 65 <= b <= 90 {
        (b + 32) as u8
    } else {
        b
    }
}

/// Whether a byte is ASCII white space (space, tab, line feed, form feed or
/// carriage return).
pub open spec fn is_ascii_ws(b: u8) -> bool {
    b == 32 || b == 9 || b == 10 || b == 12 || b == 13
}

/// The number of bytes before the first ASCII white space.
pub open spec fn ws_free_len(s: Seq<u8>) -> nat
    decreases s.len(),
{
    if s.len() == 0 || is_ascii_ws(s[0]) {
        0
    } else {
        1 + ws_free_len(s.drop_first())
    }
}

/// Whether `s` ends with `suffix`.
pub open spec fn ends_with(s: Seq<u8>, suffix: Seq<u8>) -> bool {
    suffix.len() <= s.len() && s.subrange(s.len() - suffix.len(), s.len() as int) == suffix
}

/// Whether `pattern` occurs in `s` at `p`.
pub open spec fn occurs_at(s: Seq<u8>, pattern: Seq<u8>, p: int) -> bool {
    0 <= p && p + pattern.len() <= s.len() && s.subrange(p, p + pattern.len()) == pattern
}

/// Whether no `\n` occurs in `s[from..to]`.
pub open spec fn no_newline(s: Seq<u8>, from: int, to: int) -> bool {
    forall|i: int| from <= i < to ==> s[i] != 10
}

/// The number of bytes at the start of `s[from..]` that are in `set`.
pub open spec fn run_len(s: Seq<u8>, from: int, set: Seq<u8>) -> nat
    decreases s.len() - from,
{
    if from < 0 || from >= s.len() || !set.contains(s[from]) {
        0
    } else {
        1 + run_len(s, from + 1, set)
    }
}

/// Whether a byte may occur in an encoding name: `-`, `_`, `.`, an ASCII
/// letter or digit.
pub open spec fn is_encoding_byte(b: u8) -> bool {
    b == 45 || b == 95 || b == 46 || (48 <= b <= 57) || (65 <= b <= 90) || (97 <= b <= 122)
}

/// Whether `coding` at `p` starts a PEP 263 declaration: `:` or `=`, blanks,
/// then an encoding name.
pub open spec fn coding_at(l: Seq<u8>, k: int, p: int) -> bool {
    &&& p >= k + 1
    &&& no_newline(l, k + 1, p)
    &&& occurs_at(l, bytes_of("coding"@), p)
    &&& p + 6 < l.len()
    &&& (l[p + 6] == 58 || l[p + 6] == 61)
    &&& {
        let q = p + 7 + run_len(l, p + 7, seq![32u8, 9u8]);
        q < l.len() && is_encoding_byte(l[q])
    }
}

/// Whether a line declares its encoding as PEP 263 describes: blanks, `#`,
/// then on the same line `coding`, `:` or `=`, blanks and an encoding name.
pub open spec fn is_coding_line(l: Seq<u8>) -> bool {
    let k = run_len(l, 0, seq![32u8, 9u8, 12u8]) as int;
    k < l.len() && l[k] == 35 && exists|p: int| coding_at(l, k, p)
}

/// Whether `python` or `pypy` occurs in `l` at `p`.
pub open spec fn names_at(l: Seq<u8>, p: int) -> bool {
    occurs_at(l, bytes_of("python"@), p) || occurs_at(l, bytes_of("pypy"@), p)
}

/// Whether a line is the `'''exec' …` re-direction that pip and uv write,
/// naming `python` or `pypy` on the same line.
pub open spec fn is_exec_redirect(l: Seq<u8>) -> bool {
    &&& occurs_at(l, bytes_of("'''exec' "@), 0)
    &&& exists|p: int| p >= 9 && no_newline(l, 9, p) && #[trigger] names_at(l, p)
}

/// What the lines from `pos` to the closing `'''` line of a `/bin/sh`
/// re-direction amount to: their total length, or an error for a line that
/// is not UTF-8; `None` when the content ends first, where reading would go
/// on without end.
pub open spec fn closing_len(c: Seq<u8>, pos: int) -> Option<Result<nat, ScriptError>>
    decreases c.len() - pos,
{
    if pos < 0 || pos >= c.len() {
        None
    } else {
        let e = line_end(c, pos);
        let l = c.subrange(pos, e);
        if !vstd::utf8::valid_utf8(l) {
            Some(Err(ScriptError::InvalidUtf8))
        } else if l == bytes_of("'''\n"@) {
            Some(Ok(l.len()))
        } else {
            proof {
                lemma_line_end(c, pos);
            }
            match closing_len(c, e) {
                Some(Ok(t)) => Some(Ok(l.len() + t)),
                other => other,
            }
        }
    }
}

/// The lines up to the closing line lie within the content.
pub proof fn lemma_closing_len_bound(c: Seq<u8>, pos: int)
    requires
        0 <= pos,
    ensures
        closing_len(c, pos) matches Some(Ok(t)) ==> pos + t <= c.len(),
    decreases c.len() - pos,
{
    if 0 <= pos < c.len() {
        lemma_line_end(c, pos);
        lemma_closing_len_bound(c, line_end(c, pos));
    }
}

/// Whether an interpreter path names Python by its ending: `/python`,
/// `pypy`, then `/python<major>` or `/pypy<major>`, then
/// `/python<major>.<minor>` or `/pypy<major>.<minor>`.
pub open spec fn names_python(interpreter: Seq<u8>, v: PythonVersion) -> bool {
    let major = dec(v.major as nat);
    let minor = dec(v.minor as nat);
    ||| ends_with(interpreter, bytes_of("/python"@))
    ||| ends_with(interpreter, bytes_of("pypy"@))
    ||| ends_with(interpreter, bytes_of("/python"@ + major))
    ||| ends_with(interpreter, bytes_of("/pypy"@ + major))
    ||| ends_with(interpreter, bytes_of("/python"@ + major + "."@ + minor))
    ||| ends_with(interpreter, bytes_of("/pypy"@ + major + "."@ + minor))
}

/// What examining script contents `c` for a POSIX shebang gives, for an
/// interpreter of version `v`: an error when there are not two bytes, or a
/// line read as text is not UTF-8; no script when they do not start with
/// `#!` or the shebang does not name Python; else the script. The
/// interpreter is the first line's text up to white space, in lower case;
/// `python` and `pythonw` (windowed) name Python, as does `/bin/sh` with a
/// pip / uv re-direction (optionally after a PEP 263 line), and the endings
/// of [`names_python`]. `None` when reading would not end: a `/bin/sh`
/// re-direction that is never closed.
pub open spec fn spec_detect_posix(c: Seq<u8>, v: PythonVersion) -> Option<Result<Option<PythonScript>, ScriptError>> {
    if c.len() < 2 {
        Some(Err(ScriptError::TooShort))
    } else if c[0] != 35 || c[1] != 33 {
        Some(Ok(None))
    } else {
        let e1 = line_end(c, 2);
        let line = c.subrange(2, e1).map_values(|b: u8| lower_byte(b));
        let interpreter = line.take(ws_free_len(line) as int);
        let shebang_end = 2 + interpreter.len();
        let windowed = interpreter == bytes_of("pythonw"@);
        let named = interpreter == bytes_of("python"@) || windowed;
        let script = |extra: Option<(usize, usize)>|
            Some(
                Ok(
                    Some(
                        PythonScript {
                            is_windowed: windowed,
                            shebang: Some(Shebang { end: shebang_end as usize, extra_content: extra }),
                        },
                    ),
                ),
            );
        if named {
            script(None)
        } else if interpreter == bytes_of("/bin/sh"@) {
            let l1e = line_end(c, e1);
            let l1 = c.subrange(e1, l1e);
            if !vstd::utf8::valid_utf8(l1) {
                Some(Err(ScriptError::InvalidUtf8))
            } else {
                let coding = is_coding_line(l1);
                let ds = if coding {
                    l1e
                } else {
                    e1
                };
                let de = line_end(c, ds);
                let d = c.subrange(ds, de);
                let start = if coding {
                    shebang_end + l1.len()
                } else {
                    shebang_end
                };
                if coding && !vstd::utf8::valid_utf8(d) {
                    Some(Err(ScriptError::InvalidUtf8))
                } else if d != bytes_of("'''': pshprs\n"@) && !is_exec_redirect(d) {
                    Some(Ok(None))
                } else {
                    match closing_len(c, de) {
                        None => None,
                        Some(Err(err)) => Some(Err(err)),
                        Some(Ok(t)) => script(Some((start as usize, (start + d.len() + t) as usize))),
                    }
                }
            }
        } else if names_python(interpreter, v) {
            script(None)
        } else {
            Some(Ok(None))
        }
    }
}

/// `std::str::from_utf8` of the standard library succeeds exactly on valid
/// UTF-8.
#[verifier::external_body]
fn is_utf8(bytes: &[u8]) -> (res: bool)
    ensures
        res == vstd::utf8::valid_utf8(bytes@),
{
    std::str::from_utf8(bytes).is_ok()
}

/// The bytes of the text `s`, each character taken as its code point's low
/// byte.
pub fn text_bytes(s: &str) -> (v: Vec<u8>)
    ensures
        v@ == bytes_of(s@),
{
    let chars = crate::text::chars_of(s);
    let mut v: Vec<u8> = Vec::new();
    let mut i: usize = 0;
    while i < chars.len()
        invariant
            i <= chars@.len(),
            chars@ == s@,
            v@ == bytes_of(s@.take(i as int)),
        decreases chars.len() - i,
    {
        let code: u32 = chars[i] as u32;
        v.push(code as u8);
        assert(bytes_of(s@.take(i + 1)) =~= bytes_of(s@.take(i as int)).push((s@[i as int] as u32) as u8));
        i = i + 1;
    }
    assert(s@.take(s@.len() as int) =~= s@);
    v
}

fn line_end_at(c: &[u8], pos: usize) -> (e: usize)
    requires
        pos <= c.len(),
    ensures
        e as int == line_end(c@, pos as int),
        pos <= e <= c.len(),
{
    proof {
        lemma_line_end(c@, pos as int);
    }
    let mut i: usize = pos;
    while i < c.len() && c[i] != 10
        invariant
            pos <= i <= c.len(),
            line_end(c@, pos as int) == line_end(c@, i as int),
        decreases c.len() - i,
    {
        i = i + 1;
    }
    if i < c.len() {
        i + 1
    } else {
        i
    }
}

fn bytes_eq(a: &[u8], b: &[u8]) -> (res: bool)
    ensures
        res == (a@ == b@),
{
    if a.len() != b.len() {
        return false;
    }
    let mut i: usize = 0;
    while i < a.len()
        invariant
            a@.len() == b@.len(),
            i <= a.len(),
            forall|j: int| 0 <= j < i ==> a@[j] == b@[j],
        decreases a.len() - i,
    {
        if a[i] != b[i] {
            return false;
        }
        i = i + 1;
    }
    assert(a@ =~= b@);
    true
}

fn sub_bytes(s: &[u8], from: usize, to: usize) -> (v: Vec<u8>)
    requires
        from <= to <= s.len(),
    ensures
        v@ == s@.subrange(from as int, to as int),
{
    let mut v: Vec<u8> = Vec::new();
    let mut i: usize = from;
    while i < to
        invariant
            from <= i <= to <= s.len(),
            v@ == s@.subrange(from as int, i as int),
        decreases to - i,
    {
        v.push(s[i]);
        assert(v@ =~= s@.subrange(from as int, i + 1));
        i = i + 1;
    }
    v
}

fn occurs_at_exec(s: &[u8], pattern: &[u8], p: usize) -> (res: bool)
    ensures
        res == occurs_at(s@, pattern@, p as int),
{
    if p > s.len() || pattern.len() > s.len() - p {
        return false;
    }
    let window = sub_bytes(s, p, p + pattern.len());
    bytes_eq(window.as_slice(), pattern)
}

fn ends_with_exec(s: &[u8], suffix: &[u8]) -> (res: bool)
    ensures
        res == ends_with(s@, suffix@),
{
    if suffix.len() > s.len() {
        return false;
    }
    let tail = sub_bytes(s, s.len() - suffix.len(), s.len());
    bytes_eq(tail.as_slice(), suffix)
}

fn run_len_exec(s: &[u8], from: usize, set: &[u8]) -> (n: usize)
    requires
        from <= s.len(),
    ensures
        n as nat == run_len(s@, from as int, set@),
        from + n <= s.len(),
{
    let mut i: usize = from;
    loop
        invariant
            from <= i <= s.len(),
            run_len(s@, from as int, set@) == (i - from) + run_len(s@, i as int, set@),
        decreases s.len() - i,
    {
        if i >= s.len() {
            return i - from;
        }
        let mut member = false;
        let mut k: usize = 0;
        while k < set.len()
            invariant
                k <= set.len(),
                i < s.len(),
                member == exists|m: int| 0 <= m < k && set@[m] == s@[i as int],
            decreases set.len() - k,
        {
            if set[k] == s[i] {
                member = true;
            }
            k = k + 1;
        }
        assert(member == set@.contains(s@[i as int]));
        if !member {
            return i - from;
        }
        i = i + 1;
    }
}

fn is_encoding_byte_exec(b: u8) -> (res: bool)
    ensures
        res == is_encoding_byte(b),
{
    b == 45 || b == 95 || b == 46 || (48 <= b && b <= 57) || (65 <= b && b <= 90) || (97 <= b && b <= 122)
}

fn coding_at_exec(l: &[u8], coding: &[u8], p: usize) -> (res: bool)
    requires
        coding@ == bytes_of("coding"@),
        p < l.len(),
    ensures
        res == (occurs_at(l@, coding@, p as int) && p + 6 < l@.len() && (l@[p + 6] == 58 || l@[p + 6] == 61) && {
            let q = p + 7 + run_len(l@, p + 7, seq![32u8, 9u8]);
            q < l@.len() && is_encoding_byte(l@[q])
        }),
{
    proof {
        reveal_strlit("coding");
    }
    if !occurs_at_exec(l, coding, p) {
        return false;
    }
    if p + 6 >= l.len() {
        return false;
    }
    if l[p + 6] != 58 && l[p + 6] != 61 {
        return false;
    }
    let blanks: [u8; 2] = [32, 9];
    let n = run_len_exec(l, p + 7, &blanks);
    assert(blanks@ =~= seq![32u8, 9u8]);
    let q = p + 7 + n;
    q < l.len() && is_encoding_byte_exec(l[q])
}

/// Whether a line declares its encoding as PEP 263 describes.
pub fn is_coding_line_exec(l: &[u8]) -> (res: bool)
    ensures
        res == is_coding_line(l@),
{
    let blanks: [u8; 3] = [32, 9, 12];
    assert(blanks@ =~= seq![32u8, 9u8, 12u8]);
    let k = run_len_exec(l, 0, &blanks);
    assert(k as int == run_len(l@, 0, seq![32u8, 9u8, 12u8]) as int);
    if k >= l.len() || l[k] != 35 {
        return false;
    }
    let coding = text_bytes("coding");
    proof {
        reveal_strlit("coding");
        assert(coding@.len() == 6);
        assert(coding@[0] == 99u8);
    }
    let mut p: usize = k + 1;
    while p < l.len()
        invariant
            k < l.len(),
            k as int == run_len(l@, 0, seq![32u8, 9u8, 12u8]) as int,
            l@[k as int] == 35,
            k + 1 <= p <= l.len(),
            coding@ == bytes_of("coding"@),
            coding@.len() == 6,
            coding@[0] == 99u8,
            no_newline(l@, k + 1, p as int),
            forall|x: int| k + 1 <= x < p ==> !coding_at(l@, k as int, x),
        decreases l.len() - p,
    {
        if coding_at_exec(l, coding.as_slice(), p) {
            assert(coding_at(l@, k as int, p as int));
            return true;
        }
        if l[p] == 10 {
            assert forall|x: int| #![trigger coding_at(l@, k as int, x)] x >= p implies !coding_at(l@, k as int, x) by {
                if x > p {
                    assert(l@[p as int] == 10);
                } else if occurs_at(l@, coding@, x) {
                    assert(l@.subrange(x, x + 6)[0] == l@[x]);
                }
            }
            return false;
        }
        p = p + 1;
    }
    assert forall|x: int| #![trigger coding_at(l@, k as int, x)] x >= p implies !coding_at(l@, k as int, x) by {}
    false
}

/// Whether a line is the pip / uv `exec` re-direction.
pub fn is_exec_redirect_exec(l: &[u8]) -> (res: bool)
    ensures
        res == is_exec_redirect(l@),
{
    let exec_prefix = text_bytes("'''exec' ");
    let python = text_bytes("python");
    let pypy = text_bytes("pypy");
    proof {
        reveal_strlit("'''exec' ");
        reveal_strlit("python");
        reveal_strlit("pypy");
        assert(python@[0] == 112u8 && pypy@[0] == 112u8);
    }
    if !occurs_at_exec(l, exec_prefix.as_slice(), 0) {
        return false;
    }
    assert(exec_prefix@.len() == 9);
    let mut p: usize = 9;
    while p < l.len()
        invariant
            9 <= p <= l.len(),
            occurs_at(l@, bytes_of("'''exec' "@), 0),
            python@ == bytes_of("python"@),
            pypy@ == bytes_of("pypy"@),
            python@.len() == 6 && pypy@.len() == 4,
            python@[0] == 112u8 && pypy@[0] == 112u8,
            no_newline(l@, 9, p as int),
            forall|x: int| 9 <= x < p ==> !#[trigger] names_at(l@, x),
        decreases l.len() - p,
    {
        if occurs_at_exec(l, python.as_slice(), p) || occurs_at_exec(l, pypy.as_slice(), p) {
            assert(names_at(l@, p as int));
            return true;
        }
        assert(!names_at(l@, p as int));
        if l[p] == 10 {
            assert forall|x: int| x >= 9 && no_newline(l@, 9, x) implies !#[trigger] names_at(l@, x) by {
                if x > p {
                    assert(l@[p as int] == 10);
                }
            }
            return false;
        }
        p = p + 1;
    }
    assert forall|x: int| x >= 9 && no_newline(l@, 9, x) implies !#[trigger] names_at(l@, x) by {
        if x >= p {
            assert(!occurs_at(l@, python@, x));
            assert(!occurs_at(l@, pypy@, x));
        }
    }
    false
}

fn lower_bytes(s: &[u8], from: usize, to: usize) -> (v: Vec<u8>)
    requires
        from <= to <= s.len(),
    ensures
        v@ == s@.subrange(from as int, to as int).map_values(|b: u8| lower_byte(b)),
{
    let mut v: Vec<u8> = Vec::new();
    let mut i: usize = from;
    while i < to
        invariant
            from <= i <= to <= s.len(),
            v@ == s@.subrange(from as int, i as int).map_values(|b: u8| lower_byte(b)),
        decreases to - i,
    {
        let b = s[i];
        let lower: u8 = if 65 <= b && b <= 90 {
            b + 32
        } else {
            b
        };
        v.push(lower);
        assert(v@ =~= s@.subrange(from as int, i + 1).map_values(|b: u8| lower_byte(b)));
        i = i + 1;
    }
    v
}

fn ws_free_len_exec(s: &[u8]) -> (n: usize)
    ensures
        n as nat == ws_free_len(s@),
        n <= s.len(),
{
    let mut i: usize = 0;
    assert(s@.skip(0) =~= s@);
    while i < s.len() && !(s[i] == 32 || s[i] == 9 || s[i] == 10 || s[i] == 12 || s[i] == 13)
        invariant
            i <= s.len(),
            ws_free_len(s@) == i + ws_free_len(s@.skip(i as int)),
        decreases s.len() - i,
    {
        assert(s@.skip(i as int).drop_first() =~= s@.skip(i + 1));
        i = i + 1;
    }
    i
}

/// `<prefix><major>[.<minor>]` as bytes.
fn versioned_bytes(prefix: &str, v: &PythonVersion, with_minor: bool) -> (b: Vec<u8>)
    ensures
        b@ == bytes_of(
            if with_minor {
                prefix@ + dec(v.major as nat) + "."@ + dec(v.minor as nat)
            } else {
                prefix@ + dec(v.major as nat)
            },
        ),
{
    let mut s = String::from_str(prefix);
    crate::text::push_decimal(&mut s, v.major as u64);
    if with_minor {
        s.append(".");
        crate::text::push_decimal(&mut s, v.minor as u64);
    }
    text_bytes(s.as_str())
}

/// Whether the interpreter path names Python by its ending, as
/// [`names_python`] describes.
pub fn names_python_exec(interpreter: &[u8], v: &PythonVersion) -> (res: bool)
    ensures
        res == names_python(interpreter@, *v),
{
    let python = text_bytes("/python");
    let pypy = text_bytes("pypy");
    let python_major = versioned_bytes("/python", v, false);
    let pypy_major = versioned_bytes("/pypy", v, false);
    let python_minor = versioned_bytes("/python", v, true);
    let pypy_minor = versioned_bytes("/pypy", v, true);
    ends_with_exec(interpreter, python.as_slice()) || ends_with_exec(interpreter, pypy.as_slice())
        || ends_with_exec(interpreter, python_major.as_slice()) || ends_with_exec(interpreter, pypy_major.as_slice())
        || ends_with_exec(interpreter, python_minor.as_slice()) || ends_with_exec(interpreter, pypy_minor.as_slice())
}

/// The total length of the lines from `pos` to the closing `'''` line.
fn closing_len_exec(c: &[u8], pos: usize) -> (res: Option<Result<usize, ScriptError>>)
    requires
        pos <= c.len(),
    ensures
        match closing_len(c@, pos as int) {
            Some(Ok(t)) => res == Some(Ok::<usize, ScriptError>(t as usize)),
            Some(Err(e)) => res == Some(Err::<usize, ScriptError>(e)),
            None => res is None,
        },
{
    let closing = text_bytes("'''\n");
    let mut p: usize = pos;
    let mut total: usize = 0;
    loop
        invariant
            pos <= p <= c.len(),
            total == p - pos,
            closing@ == bytes_of("'''\n"@),
            closing_len(c@, pos as int) == match closing_len(c@, p as int) {
                Some(Ok(t)) => Some(Ok::<nat, ScriptError>((total + t) as nat)),
                other => other,
            },
        decreases c.len() - p,
    {
        if p >= c.len() {
            return None;
        }
        let e = line_end_at(c, p);
        proof {
            lemma_line_end(c@, p as int);
        }
        let line = sub_bytes(c, p, e);
        if !is_utf8(line.as_slice()) {
            return Some(Err(ScriptError::InvalidUtf8));
        }
        if bytes_eq(line.as_slice(), closing.as_slice()) {
            return Some(Ok(total + (e - p)));
        }
        total = total + (e - p);
        p = e;
    }
}

/// Examines script contents for a POSIX shebang that names Python, as
/// [`spec_detect_posix`] describes; the contents are those of the whole
/// file. `None` for contents whose `/bin/sh` re-direction is never closed:
/// reading them line by line for the closing line would not end.
pub fn detect_posix(c: &[u8], python_version: PythonVersion) -> (res: Option<
    Result<Option<PythonScript>, ScriptError>,
>)
    ensures
        res == spec_detect_posix(c@, python_version),
{
    if c.len() < 2 {
        return Some(Err(ScriptError::TooShort));
    }
    if c[0] != 35 || c[1] != 33 {
        return Some(Ok(None));
    }
    let e1 = line_end_at(c, 2);
    let line = lower_bytes(c, 2, e1);
    let n = ws_free_len_exec(line.as_slice());
    let interpreter = sub_bytes(line.as_slice(), 0, n);
    assert(interpreter@ =~= line@.take(n as int));
    let shebang_end = 2 + n;
    let pythonw = text_bytes("pythonw");
    let python = text_bytes("python");
    let bin_sh = text_bytes("/bin/sh");
    let windowed = bytes_eq(interpreter.as_slice(), pythonw.as_slice());
    let named = bytes_eq(interpreter.as_slice(), python.as_slice()) || windowed;
    if named {
        return Some(Ok(Some(PythonScript { is_windowed: windowed, shebang: Some(Shebang { end: shebang_end, extra_content: None }) })));
    }
    if bytes_eq(interpreter.as_slice(), bin_sh.as_slice()) {
        let l1e = line_end_at(c, e1);
        let l1 = sub_bytes(c, e1, l1e);
        if !is_utf8(l1.as_slice()) {
            return Some(Err(ScriptError::InvalidUtf8));
        }
        let coding = is_coding_line_exec(l1.as_slice());
        let ds = if coding {
            l1e
        } else {
            e1
        };
        let de = line_end_at(c, ds);
        let d = sub_bytes(c, ds, de);
        let start = if coding {
            shebang_end + l1.len()
        } else {
            shebang_end
        };
        if coding && !is_utf8(d.as_slice()) {
            return Some(Err(ScriptError::InvalidUtf8));
        }
        let pshprs = text_bytes("'''': pshprs\n");
        if !bytes_eq(d.as_slice(), pshprs.as_slice()) && !is_exec_redirect_exec(d.as_slice()) {
            return Some(Ok(None));
        }
        let t = match closing_len_exec(c, de) {
            None => {
                return None;
            },
            Some(Ok(t)) => t,
            Some(Err(e)) => {
                return Some(Err(e));
            },
        };
        proof {
            lemma_line_end(c@, 2);
            lemma_line_end(c@, e1 as int);
            lemma_line_end(c@, ds as int);
            lemma_closing_len_bound(c@, de as int);
        }
        let end = start + d.len() + t;
        return Some(
            Ok(
                Some(
                    PythonScript {
                        is_windowed: windowed,
                        shebang: Some(Shebang { end: shebang_end, extra_content: Some((start, end)) }),
                    },
                ),
            ),
        );
    }
    if names_python_exec(interpreter.as_slice(), &python_version) {
        Some(Ok(Some(PythonScript { is_windowed: windowed, shebang: Some(Shebang { end: shebang_end, extra_content: None }) })))
    } else {
        Some(Ok(None))
    }
}

/// Whether a shebang's positions lie in order within contents of length
/// `len`.
pub open spec fn shebang_fits(s: Shebang, len: nat) -> bool {
    &&& s.end <= len
    &&& match s.extra_content {
        Some((start, end)) => s.end <= start <= end <= len,
        None => true,
    }
}

/// What follows a shebang line once it is re-written: the rest of the
/// contents from the end of the interpreter, leaving out a `/bin/sh`
/// re-direction (but keeping a coding line before it).
pub open spec fn spec_script_body(c: Seq<u8>, s: Shebang) -> Seq<u8> {
    match s.extra_content {
        Some((start, end)) => c.subrange(s.end as int, start as int) + c.subrange(end as int, c.len() as int),
        None => c.subrange(s.end as int, c.len() as int),
    }
}

fn append_bytes(out: &mut Vec<u8>, bytes: &[u8])
    ensures
        final(out)@ == old(out)@ + bytes@,
{
    let ghost start = out@;
    let mut i: usize = 0;
    while i < bytes.len()
        invariant
            i <= bytes@.len(),
            out@ == start + bytes@.take(i as int),
        decreases bytes.len() - i,
    {
        out.push(bytes[i]);
        assert(bytes@.take(i + 1) =~= bytes@.take(i as int).push(bytes@[i as int]));
        i = i + 1;
    }
    assert(bytes@.take(bytes@.len() as int) =~= bytes@);
}

fn append_body(out: &mut Vec<u8>, c: &[u8], s: Shebang)
    requires
        shebang_fits(s, c@.len()),
    ensures
        final(out)@ == old(out)@ + spec_script_body(c@, s),
{
    let ghost before = out@;
    match s.extra_content {
        Some((start, end)) => {
            let head = sub_bytes(c, s.end, start);
            append_bytes(out, head.as_slice());
            let tail = sub_bytes(c, end, c.len());
            append_bytes(out, tail.as_slice());
            assert(out@ =~= before + spec_script_body(c@, s));
        },
        None => {
            let rest = sub_bytes(c, s.end, c.len());
            append_bytes(out, rest.as_slice());
        },
    }
}

impl PythonScript {
    /// The script re-written to run with whatever `python` (or `pythonw`)
    /// is on the `PATH`: `#!python` or `#!pythonw`, then its body.
    pub fn re_write(&self, contents: &[u8]) -> (out: Vec<u8>)
        requires
            self.shebang matches Some(s) && shebang_fits(s, contents@.len()),
        ensures
            out@ == bytes_of(
                if self.is_windowed {
                    "#!pythonw"@
                } else {
                    "#!python"@
                },
            ) + spec_script_body(contents@, self.shebang->0),
    {
        let header = text_bytes(
            if self.is_windowed {
                "#!pythonw"
            } else {
                "#!python"
            },
        );
        let mut out = header;
        match self.shebang {
            Some(s) => append_body(&mut out, contents, s),
            None => {},
        }
        out
    }

    /// The script with its shebang naming `interpreter`: `#!`, the
    /// interpreter path, a new line, then its body.
    pub fn reified_contents(&self, interpreter: &[u8], contents: &[u8]) -> (out: Vec<u8>)
        requires
            self.shebang matches Some(s) && shebang_fits(s, contents@.len()),
        ensures
            out@ == seq![35u8, 33u8] + interpreter@ + seq![10u8] + spec_script_body(contents@, self.shebang->0),
    {
        let mut out: Vec<u8> = Vec::new();
        out.push(35);
        out.push(33);
        append_bytes(&mut out, interpreter);
        out.push(10);
        let ghost head = out@;
        assert(head =~= seq![35u8, 33u8] + interpreter@ + seq![10u8]);
        match self.shebang {
            Some(s) => append_body(&mut out, contents, s),
            None => {},
        }
        out
    }
}

/// The shebang of a detected script lies within its contents, so the
/// script can be re-written.
pub proof fn law_detected_shebang_fits(c: Seq<u8>, v: PythonVersion)
    requires
        c.len() <= usize::MAX,
    ensures
        spec_detect_posix(c, v) matches Some(Ok(Some(script))) ==> script.shebang matches Some(s) && shebang_fits(s, c.len()),
{
    if c.len() >= 2 && c[0] == 35 && c[1] == 33 {
        lemma_line_end(c, 2);
        let e1 = line_end(c, 2);
        let line = c.subrange(2, e1).map_values(|b: u8| lower_byte(b));
        lemma_ws_free_len(line);
        assert(line.len() == e1 - 2);
        let shebang_end = 2 + ws_free_len(line);
        assert(shebang_end <= e1);
        lemma_line_end(c, e1);
        let l1e = line_end(c, e1);
        let l1 = c.subrange(e1, l1e);
        let coding = is_coding_line(l1);
        let ds = if coding { l1e } else { e1 };
        lemma_line_end(c, ds);
        let de = line_end(c, ds);
        lemma_closing_len_bound(c, de);
        let start = if coding { shebang_end + l1.len() } else { shebang_end };
        assert(start <= ds);
    }
}

proof fn lemma_ws_free_len(s: Seq<u8>)
    ensures
        ws_free_len(s) <= s.len(),
    decreases s.len(),
{
    if s.len() > 0 && !is_ascii_ws(s[0]) {
        lemma_ws_free_len(s.drop_first());
    }
}

} // verus!
