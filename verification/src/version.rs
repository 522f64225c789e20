//! Python versions and the CPython / PyPy implementations that carry them,
//! with the parsers for their textual forms (`3.14.5`, `3.14dt`, `3.11_7.3`).

use vstd::prelude::*;

use crate::implementation::Implementation;
use crate::text;
use crate::text::{chars_eq, chars_of, digit_run_at, find_char_at, parse_uint, push_decimal, starts_with, sub_chars};
use vstd::string::StringExecFns;

verus! {

/// The release level of a Python version. Variants are ordered as the
/// version ordering uses them.
#[derive(Copy, Clone, Debug, PartialEq, Eq, Structural, Hash, PartialOrd, Ord)]
pub enum ReleaseLevel {
    Final,
    Rc,
    Beta,
    Alpha,
}

/// Why a Python version or implementation description was refused.
#[derive(Copy, Clone, Debug, PartialEq, Eq)]
pub enum VersionError {
    /// Not `<major>.<minor>[.<micro>[<a|b|final><serial>]]` with byte-sized numbers.
    InvalidPythonVersion,
    /// Not a CPython version followed by optional `d`, `t`, `m`, `u` flags.
    InvalidCPythonVersion,
    /// The `t` (free-threaded) flag on a version older than 3.13.
    FreeThreadedBefore313,
    /// The `m` (pymalloc) flag on a version 3.8 or newer.
    PymallocFrom38,
    /// The `u` (UCS-4) flag on a version 3.3 or newer.
    Ucs4From33,
    /// A PyPy release component that is not a byte-sized number.
    InvalidPyPyVersion,
    /// Not a recognised release level name.
    InvalidReleaseLevel,
}

/// The release level named by `s`, as CPython's `sys.version_info` spells it.
pub open spec fn spec_release_level(s: Seq<char>) -> Option<ReleaseLevel> {
    if s == seq!['f', 'i', 'n', 'a', 'l'] {
        Some(ReleaseLevel::Final)
    } else if s == seq!['c', 'a', 'n', 'd', 'i', 'd', 'a', 't', 'e'] {
        Some(ReleaseLevel::Rc)
    } else if s == seq!['b', 'e', 't', 'a'] || s == seq!['b'] {
        Some(ReleaseLevel::Beta)
    } else if s == seq!['a', 'l', 'p', 'h', 'a'] || s == seq!['a'] {
        Some(ReleaseLevel::Alpha)
    } else {
        None
    }
}

impl ReleaseLevel {
    /// Parses a release level name: `final`, `candidate`, `beta` or `b`,
    /// `alpha` or `a`.
    pub fn parse(value: &str) -> (res: Result<ReleaseLevel, VersionError>)
        ensures
            match res {
                Ok(level) => spec_release_level(value@) == Some(level),
                Err(e) => spec_release_level(value@) is None && e == VersionError::InvalidReleaseLevel,
            },
    {
        let chars = chars_of(value);
        Self::parse_chars(chars.as_slice())
    }

    /// Parses a release level name given as characters.
    pub fn parse_chars(value: &[char]) -> (res: Result<ReleaseLevel, VersionError>)
        ensures
            match res {
                Ok(level) => spec_release_level(value@) == Some(level),
                Err(e) => spec_release_level(value@) is None && e == VersionError::InvalidReleaseLevel,
            },
    {
        let final_word = chars_of("final");
        let candidate = chars_of("candidate");
        let beta = chars_of("beta");
        let b = chars_of("b");
        let alpha = chars_of("alpha");
        let a = chars_of("a");
        proof {
            reveal_strlit("final");
            reveal_strlit("candidate");
            reveal_strlit("beta");
            reveal_strlit("b");
            reveal_strlit("alpha");
            reveal_strlit("a");
            assert(final_word@ =~= seq!['f', 'i', 'n', 'a', 'l']);
            assert(candidate@ =~= seq!['c', 'a', 'n', 'd', 'i', 'd', 'a', 't', 'e']);
            assert(beta@ =~= seq!['b', 'e', 't', 'a']);
            assert(b@ =~= seq!['b']);
            assert(alpha@ =~= seq!['a', 'l', 'p', 'h', 'a']);
            assert(a@ =~= seq!['a']);
        }
        if chars_eq(value, final_word.as_slice()) {
            Ok(ReleaseLevel::Final)
        } else if chars_eq(value, candidate.as_slice()) {
            Ok(ReleaseLevel::Rc)
        } else if chars_eq(value, beta.as_slice()) || chars_eq(value, b.as_slice()) {
            Ok(ReleaseLevel::Beta)
        } else if chars_eq(value, alpha.as_slice()) || chars_eq(value, a.as_slice()) {
            Ok(ReleaseLevel::Alpha)
        } else {
            Err(VersionError::InvalidReleaseLevel)
        }
    }
}

/// A Python version as `sys.version_info` reports it. The derived ordering
/// compares major, minor, micro, release level and serial in turn.
#[derive(Copy, Clone, Debug, PartialEq, Eq, Structural, Hash, PartialOrd, Ord)]
pub struct PythonVersion {
    pub major: u8,
    pub minor: u8,
    pub micro: u8,
    pub releaselevel: ReleaseLevel,
    pub serial: u8,
}

impl PythonVersion {
    /// The final release `<major>.<minor>.0`.
    pub fn simple(major: u8, minor: u8) -> (v: PythonVersion)
        ensures
            v == (PythonVersion { major, minor, micro: 0, releaselevel: ReleaseLevel::Final, serial: 0 }),
    {
        PythonVersion { major, minor, micro: 0, releaselevel: ReleaseLevel::Final, serial: 0 }
    }

    /// The final release `<major>.<minor>.<micro>`, with micro 0 when absent.
    pub fn new(major: u8, minor: u8, micro: Option<u8>) -> (v: PythonVersion)
        ensures
            v == (PythonVersion {
                major,
                minor,
                micro: match micro {
                    Some(m) => m,
                    None => 0,
                },
                releaselevel: ReleaseLevel::Final,
                serial: 0,
            }),
    {
        let micro = match micro {
            Some(m) => m,
            None => 0,
        };
        PythonVersion { major, minor, micro, releaselevel: ReleaseLevel::Final, serial: 0 }
    }
}

/// The text that follows the micro version of a pre-release: `a`, `b` or
/// `rc` and the serial number; nothing for a final release.
pub open spec fn spec_release_text(level: ReleaseLevel, serial: u8) -> Seq<char> {
    match level {
        ReleaseLevel::Alpha => "a"@ + text::dec(serial as nat),
        ReleaseLevel::Beta => "b"@ + text::dec(serial as nat),
        ReleaseLevel::Rc => "rc"@ + text::dec(serial as nat),
        ReleaseLevel::Final => Seq::<char>::empty(),
    }
}

/// The text of a version: `<major>.<minor>.<micro>`, followed for a
/// pre-release by `a`, `b` or `rc` and the serial number.
pub open spec fn spec_version_text(v: PythonVersion) -> Seq<char> {
    text::dec(v.major as nat) + "."@ + text::dec(v.minor as nat) + "."@ + text::dec(v.micro as nat)
        + spec_release_text(v.releaselevel, v.serial)
}

impl PythonVersion {
    /// The text of the version, as [`spec_version_text`] gives it.
    pub fn to_string(&self) -> (s: String)
        ensures
            s@ == spec_version_text(*self),
    {
        let mut s = String::new();
        push_decimal(&mut s, self.major as u64);
        s.append(".");
        push_decimal(&mut s, self.minor as u64);
        s.append(".");
        push_decimal(&mut s, self.micro as u64);
        let ghost base = s@;
        match self.releaselevel {
            ReleaseLevel::Alpha => {
                s.append("a");
                push_decimal(&mut s, self.serial as u64);
            },
            ReleaseLevel::Beta => {
                s.append("b");
                push_decimal(&mut s, self.serial as u64);
            },
            ReleaseLevel::Rc => {
                s.append("rc");
                push_decimal(&mut s, self.serial as u64);
            },
            ReleaseLevel::Final => {},
        }
        proof {
            vstd::seq_lib::lemma_concat_associative(base, "a"@, text::dec(self.serial as nat));
            vstd::seq_lib::lemma_concat_associative(base, "b"@, text::dec(self.serial as nat));
            vstd::seq_lib::lemma_concat_associative(base, "rc"@, text::dec(self.serial as nat));
        }
        assert(s@ =~= spec_version_text(*self));
        s
    }
}

proof fn lemma_release_suffix(level: ReleaseLevel, serial: u8)
    ensures
        level == ReleaseLevel::Alpha || level == ReleaseLevel::Beta ==> spec_release_suffix(
            spec_release_text(level, serial),
        ) == Some((level, serial)),
        level == ReleaseLevel::Rc ==> spec_release_suffix(spec_release_text(level, serial)) is None,
        level != ReleaseLevel::Final ==> spec_release_text(level, serial).len() > 0 && !text::is_digit(
            spec_release_text(level, serial)[0],
        ),
{
    reveal_strlit("a");
    reveal_strlit("b");
    reveal_strlit("rc");
    let ds = text::dec(serial as nat);
    let suf = spec_release_text(level, serial);
    text::lemma_dec(serial as nat);
    text::lemma_parse_dec(serial as nat, 255);
    match level {
        ReleaseLevel::Alpha => {
            assert(suf[0] == 'a');
            assert(!text::has_prefix(suf, seq!['f', 'i', 'n', 'a', 'l']));
            assert(suf.take(1) =~= seq!['a']);
            assert(suf.skip(1) =~= ds);
        },
        ReleaseLevel::Beta => {
            assert(suf[0] == 'b');
            assert(!text::has_prefix(suf, seq!['f', 'i', 'n', 'a', 'l']));
            assert(suf.take(1) =~= seq!['b']);
            assert(suf.take(1)[0] != seq!['a'][0]);
            assert(suf.skip(1) =~= ds);
        },
        ReleaseLevel::Rc => {
            assert(suf[0] == 'r');
            assert(suf.take(1)[0] != seq!['a'][0]);
            assert(suf.take(1)[0] != seq!['b'][0]);
            assert(!text::has_prefix(suf, seq!['f', 'i', 'n', 'a', 'l']));
        },
        ReleaseLevel::Final => {},
    }
}

proof fn lemma_micro_suffix(micro: u8, level: ReleaseLevel, serial: u8)
    ensures
        (level == ReleaseLevel::Final && serial == 0) || level == ReleaseLevel::Alpha || level
            == ReleaseLevel::Beta ==> spec_micro_suffix(
            seq!['.'] + (text::dec(micro as nat) + spec_release_text(level, serial)),
        ) == Some((micro, level, serial)),
        level == ReleaseLevel::Rc ==> spec_micro_suffix(
            seq!['.'] + (text::dec(micro as nat) + spec_release_text(level, serial)),
        ) is None,
{
    let suf = spec_release_text(level, serial);
    let r2 = text::dec(micro as nat) + suf;
    let m = seq!['.'] + r2;
    lemma_release_suffix(level, serial);
    assert(m[0] == '.');
    assert(m.skip(1) =~= r2);
    text::lemma_digit_run_dec(micro as nat, suf);
    text::lemma_parse_dec(micro as nat, 255);
}

/// Parsing the text of a version gives the version back, for a final release
/// (serial 0) or an alpha or beta release. The text of a release candidate
/// (`…rc<n>`) is refused, as `rc` is not among the release level names.
pub proof fn law_version_text_round_trip(v: PythonVersion)
    ensures
        (v.releaselevel == ReleaseLevel::Final && v.serial == 0) || v.releaselevel == ReleaseLevel::Alpha
            || v.releaselevel == ReleaseLevel::Beta ==> spec_parse_python_version(spec_version_text(v))
            == Some(v),
        v.releaselevel == ReleaseLevel::Rc ==> spec_parse_python_version(spec_version_text(v)) is None,
{
    reveal_strlit(".");
    let dm = text::dec(v.major as nat);
    let dn = text::dec(v.minor as nat);
    let r2 = text::dec(v.micro as nat) + spec_release_text(v.releaselevel, v.serial);
    let r1 = dn + (seq!['.'] + r2);
    let full = dm + (seq!['.'] + r1);
    assert(spec_version_text(v) =~= full);
    text::lemma_digit_run_dec(v.major as nat, seq!['.'] + r1);
    text::lemma_parse_dec(v.major as nat, 255);
    let a = dm.len() as int;
    assert(full[a] == '.');
    assert(full.skip(a + 1) =~= r1);
    text::lemma_digit_run_dec(v.minor as nat, seq!['.'] + r2);
    text::lemma_parse_dec(v.minor as nat, 255);
    let b = dn.len() as int;
    assert(r1.skip(b) =~= seq!['.'] + r2);
    lemma_micro_suffix(v.micro, v.releaselevel, v.serial);
}

/// A version given as `<major>.<minor>` alone is the final release with
/// micro version 0.
pub proof fn law_micro_defaults_to_zero(major: u8, minor: u8)
    ensures
        spec_parse_python_version(text::dec(major as nat) + "."@ + text::dec(minor as nat)) == Some(
            PythonVersion { major, minor, micro: 0, releaselevel: ReleaseLevel::Final, serial: 0 },
        ),
{
    reveal_strlit(".");
    let dm = text::dec(major as nat);
    let dn = text::dec(minor as nat);
    let full = dm + (seq!['.'] + dn);
    assert(dm + "."@ + dn =~= full);
    text::lemma_digit_run_dec(major as nat, seq!['.'] + dn);
    text::lemma_parse_dec(major as nat, 255);
    let a = dm.len() as int;
    assert(full[a] == '.');
    assert(full.skip(a + 1) =~= dn + Seq::<char>::empty());
    text::lemma_digit_run_dec(minor as nat, Seq::<char>::empty());
    text::lemma_parse_dec(minor as nat, 255);
    assert((dn + Seq::<char>::empty()).skip(dn.len() as int) =~= Seq::<char>::empty());
}

/// The version ordering is a strict order: no version precedes itself, and
/// precedence is asymmetric and transitive.
pub proof fn law_version_order(a: PythonVersion, b: PythonVersion, c: PythonVersion)
    ensures
        !version_lt(a, a),
        version_lt(a, b) ==> !version_lt(b, a),
        version_lt(a, b) && version_lt(b, c) ==> version_lt(a, c),
        a != b ==> version_lt(a, b) || version_lt(b, a),
{
}

/// The byte-sized number denoted by a non-empty run of ASCII digits.
pub open spec fn spec_byte(s: Seq<char>) -> Option<u8> {
    match text::spec_parse_uint(s, 255) {
        Some(n) => Some(n as u8),
        None => None,
    }
}

/// The release level and serial of a `<a|b|final><serial>` suffix. The name `rc`
/// is accepted by the version grammar but not by the release level names, so it
/// is refused.
pub open spec fn spec_release_suffix(s: Seq<char>) -> Option<(ReleaseLevel, u8)> {
    let (level, len) = if text::has_prefix(s, seq!['f', 'i', 'n', 'a', 'l']) {
        (Some(ReleaseLevel::Final), 5int)
    } else if text::has_prefix(s, seq!['a']) {
        (Some(ReleaseLevel::Alpha), 1int)
    } else if text::has_prefix(s, seq!['b']) {
        (Some(ReleaseLevel::Beta), 1int)
    } else {
        (None, 0int)
    };
    let serial = s.skip(len);
    match level {
        Some(level) => if serial.len() > 0 && text::all_digits(serial) {
            match spec_byte(serial) {
                Some(n) => Some((level, n)),
                None => None,
            }
        } else {
            None
        },
        None => None,
    }
}

/// The micro number, release level and serial of what follows
/// `<major>.<minor>`: nothing, or `.<micro>` with an optional release suffix.
pub open spec fn spec_micro_suffix(s: Seq<char>) -> Option<(u8, ReleaseLevel, u8)> {
    if s.len() == 0 {
        Some((0, ReleaseLevel::Final, 0))
    } else if s[0] != '.' {
        None
    } else {
        let r = s.skip(1);
        let c = text::digit_run(r) as int;
        let rest = r.skip(c);
        if c == 0 {
            None
        } else {
            match spec_byte(r.take(c)) {
                None => None,
                Some(micro) => if rest.len() == 0 {
                    Some((micro, ReleaseLevel::Final, 0))
                } else {
                    match spec_release_suffix(rest) {
                        Some((level, serial)) => Some((micro, level, serial)),
                        None => None,
                    }
                },
            }
        }
    }
}

/// The Python version that `s` denotes:
/// `<major>.<minor>[.<micro>[<a|b|final><serial>]]`, every number a run of
/// ASCII digits whose value fits a byte.
pub open spec fn spec_parse_python_version(s: Seq<char>) -> Option<PythonVersion> {
    let a = text::digit_run(s) as int;
    if a == 0 || a >= s.len() || s[a] != '.' {
        None
    } else {
        let r = s.skip(a + 1);
        let b = text::digit_run(r) as int;
        if b == 0 {
            None
        } else {
            match (spec_byte(s.take(a)), spec_byte(r.take(b)), spec_micro_suffix(r.skip(b))) {
                (Some(major), Some(minor), Some((micro, releaselevel, serial))) => Some(
                    PythonVersion { major, minor, micro, releaselevel, serial },
                ),
                _ => None,
            }
        }
    }
}

/// Parses a byte-sized number from `s[from..to]`.
fn parse_byte_at(s: &[char], from: usize, to: usize) -> (res: Option<u8>)
    requires
        from <= to <= s.len(),
    ensures
        res == spec_byte(s@.subrange(from as int, to as int)),
{
    let digits = sub_chars(s, from, to);
    match parse_uint(&digits, 255) {
        Some(n) => Some(n as u8),
        None => None,
    }
}

/// Parses the `<a|b|final><serial>` suffix starting at `s[from]`.
fn parse_release_suffix(s: &[char], from: usize) -> (res: Option<(ReleaseLevel, u8)>)
    requires
        from <= s.len(),
    ensures
        res == spec_release_suffix(s@.subrange(from as int, s@.len() as int)),
{
    let ghost rest = s@.subrange(from as int, s@.len() as int);
    let tail = sub_chars(s, from, s.len());
    let final_word = chars_of("final");
    let a = chars_of("a");
    let b = chars_of("b");
    proof {
        reveal_strlit("final");
        reveal_strlit("a");
        reveal_strlit("b");
        assert(final_word@ =~= seq!['f', 'i', 'n', 'a', 'l']);
        assert(a@ =~= seq!['a']);
        assert(b@ =~= seq!['b']);
    }
    let (level, len): (ReleaseLevel, usize) = if starts_with(tail.as_slice(), final_word.as_slice()) {
        (ReleaseLevel::Final, 5)
    } else if starts_with(tail.as_slice(), a.as_slice()) {
        (ReleaseLevel::Alpha, 1)
    } else if starts_with(tail.as_slice(), b.as_slice()) {
        (ReleaseLevel::Beta, 1)
    } else {
        return None;
    };
    let start = from + len;
    let run = digit_run_at(s, start);
    proof {
        assert(rest.skip(len as int) =~= s@.subrange(start as int, s@.len() as int));
        text::lemma_digit_run(s@.subrange(start as int, s@.len() as int));
    }
    if run == 0 || start + run != s.len() {
        proof {
            let serial = s@.subrange(start as int, s@.len() as int);
            if serial.len() > 0 && text::all_digits(serial) {
                assert(text::is_digit(serial[run as int]));
            }
        }
        return None;
    }
    proof {
        let serial = s@.subrange(start as int, s@.len() as int);
        assert(serial.take(run as int) =~= serial);
    }
    match parse_byte_at(s, start, s.len()) {
        Some(n) => Some((level, n)),
        None => None,
    }
}

/// Parses what follows `<major>.<minor>`, starting at `s[from]`.
fn parse_micro_suffix(s: &[char], from: usize) -> (res: Option<(u8, ReleaseLevel, u8)>)
    requires
        from <= s.len(),
    ensures
        res == spec_micro_suffix(s@.subrange(from as int, s@.len() as int)),
{
    let ghost rest = s@.subrange(from as int, s@.len() as int);
    if from == s.len() {
        return Some((0, ReleaseLevel::Final, 0));
    }
    if s[from] != '.' {
        return None;
    }
    let start = from + 1;
    let run = digit_run_at(s, start);
    proof {
        assert(rest.skip(1) =~= s@.subrange(start as int, s@.len() as int));
        assert(rest.skip(1).take(run as int) =~= s@.subrange(start as int, (start + run) as int));
        assert(rest.skip(1).skip(run as int) =~= s@.subrange((start + run) as int, s@.len() as int));
    }
    if run == 0 {
        return None;
    }
    let micro = match parse_byte_at(s, start, start + run) {
        Some(m) => m,
        None => {
            return None;
        },
    };
    if start + run == s.len() {
        return Some((micro, ReleaseLevel::Final, 0));
    }
    match parse_release_suffix(s, start + run) {
        Some((level, serial)) => Some((micro, level, serial)),
        None => None,
    }
}

/// Parses a Python version given as characters.
pub fn parse_python_version_chars(s: &[char]) -> (res: Result<PythonVersion, VersionError>)
    ensures
        match res {
            Ok(v) => spec_parse_python_version(s@) == Some(v),
            Err(e) => spec_parse_python_version(s@) is None && e == VersionError::InvalidPythonVersion,
        },
{
    let a = digit_run_at(s, 0);
    proof {
        assert(s@.subrange(0, s@.len() as int) =~= s@);
    }
    if a == 0 || a >= s.len() || s[a] != '.' {
        return Err(VersionError::InvalidPythonVersion);
    }
    let start = a + 1;
    let b = digit_run_at(s, start);
    proof {
        let r = s@.skip(a + 1);
        assert(r =~= s@.subrange(start as int, s@.len() as int));
        assert(r.take(b as int) =~= s@.subrange(start as int, (start + b) as int));
        assert(r.skip(b as int) =~= s@.subrange((start + b) as int, s@.len() as int));
        assert(s@.take(a as int) =~= s@.subrange(0, a as int));
    }
    if b == 0 {
        return Err(VersionError::InvalidPythonVersion);
    }
    let major = parse_byte_at(s, 0, a);
    let minor = parse_byte_at(s, start, start + b);
    let suffix = parse_micro_suffix(s, start + b);
    match (major, minor, suffix) {
        (Some(major), Some(minor), Some((micro, releaselevel, serial))) => Ok(
            PythonVersion { major, minor, micro, releaselevel, serial },
        ),
        _ => Err(VersionError::InvalidPythonVersion),
    }
}

/// Parses a Python version: `<major>.<minor>[.<micro>[<a|b|final><serial>]]`.
pub fn parse_python_version(value: &str) -> (res: Result<PythonVersion, VersionError>)
    ensures
        match res {
            Ok(v) => spec_parse_python_version(value@) == Some(v),
            Err(e) => spec_parse_python_version(value@) is None && e == VersionError::InvalidPythonVersion,
        },
{
    let chars = chars_of(value);
    parse_python_version_chars(chars.as_slice())
}

/// The rank of a release level in the version ordering.
pub open spec fn release_rank(level: ReleaseLevel) -> int {
    match level {
        ReleaseLevel::Final => 0,
        ReleaseLevel::Rc => 1,
        ReleaseLevel::Beta => 2,
        ReleaseLevel::Alpha => 3,
    }
}

/// Whether `a` comes before `b` in the version ordering: major, minor, micro,
/// release level and serial compared in turn.
pub open spec fn version_lt(a: PythonVersion, b: PythonVersion) -> bool {
    if a.major != b.major {
        a.major < b.major
    } else if a.minor != b.minor {
        a.minor < b.minor
    } else if a.micro != b.micro {
        a.micro < b.micro
    } else if a.releaselevel != b.releaselevel {
        release_rank(a.releaselevel) < release_rank(b.releaselevel)
    } else {
        a.serial < b.serial
    }
}

fn release_rank_of(level: ReleaseLevel) -> (r: u8)
    ensures
        r == release_rank(level),
{
    match level {
        ReleaseLevel::Final => 0,
        ReleaseLevel::Rc => 1,
        ReleaseLevel::Beta => 2,
        ReleaseLevel::Alpha => 3,
    }
}

impl PythonVersion {
    /// Whether `self` comes before `other` in the version ordering.
    pub fn precedes(&self, other: &PythonVersion) -> (res: bool)
        ensures
            res == version_lt(*self, *other),
    {
        if self.major != other.major {
            self.major < other.major
        } else if self.minor != other.minor {
            self.minor < other.minor
        } else if self.micro != other.micro {
            self.micro < other.micro
        } else {
            let a = release_rank_of(self.releaselevel);
            let b = release_rank_of(other.releaselevel);
            if a != b {
                a < b
            } else {
                self.serial < other.serial
            }
        }
    }
}

/// The ABI of a CPython build: free-threaded, debug, pymalloc and UCS-4
/// Unicode. `None` means the property was not stated.
#[derive(Copy, Clone, Debug, PartialEq, Eq, Hash)]
pub struct CPythonAbiInfo {
    pub free_threaded: Option<bool>,
    pub debug: bool,
    pub pymalloc: Option<bool>,
    pub ucs4: Option<bool>,
}

impl CPythonAbiInfo {
    /// The ABI with nothing stated and no debug build.
    pub fn unstated() -> (abi: CPythonAbiInfo)
        ensures
            abi == (CPythonAbiInfo { free_threaded: None, debug: false, pymalloc: None, ucs4: None }),
    {
        CPythonAbiInfo { free_threaded: None, debug: false, pymalloc: None, ucs4: None }
    }
}

/// A CPython interpreter: its version and ABI.
#[derive(Copy, Clone, Debug, PartialEq, Eq)]
pub struct CPythonImplementation {
    pub version: PythonVersion,
    pub abi_info: CPythonAbiInfo,
}

/// `true` only for a stated `true`.
pub open spec fn stated(flag: Option<bool>) -> bool {
    match flag {
        Some(b) => b,
        None => false,
    }
}

impl CPythonImplementation {
    /// Whether this is a free-threaded build.
    pub fn free_threaded(&self) -> (res: bool)
        ensures
            res == stated(self.abi_info.free_threaded),
    {
        match self.abi_info.free_threaded {
            Some(b) => b,
            None => false,
        }
    }

    /// Whether this is a debug build.
    pub fn debug(&self) -> (res: bool)
        ensures
            res == self.abi_info.debug,
    {
        self.abi_info.debug
    }

    /// Whether this is a pymalloc build.
    pub fn pymalloc(&self) -> (res: bool)
        ensures
            res == stated(self.abi_info.pymalloc),
    {
        match self.abi_info.pymalloc {
            Some(b) => b,
            None => false,
        }
    }

    /// Whether this is a UCS-4 Unicode build.
    pub fn ucs4(&self) -> (res: bool)
        ensures
            res == stated(self.abi_info.ucs4),
    {
        match self.abi_info.ucs4 {
            Some(b) => b,
            None => false,
        }
    }
}

/// Whether `c` is one of the CPython version flags `d`, `t`, `m`, `u`.
pub open spec fn is_flag(c: char) -> bool {
    c == 'd' || c == 't' || c == 'm' || c == 'u'
}

/// The index of the last character of `s` that is not a flag.
pub open spec fn last_non_flag(s: Seq<char>) -> Option<int>
    decreases s.len(),
{
    if s.len() == 0 {
        None
    } else if !is_flag(s.last()) {
        Some(s.len() - 1)
    } else {
        last_non_flag(s.drop_last())
    }
}

/// How a CPython version text splits into a version and trailing flags: the
/// version runs through the last character that is not a flag, is at least two
/// characters long, and holds no line feed before its last character.
pub open spec fn spec_split_flags(s: Seq<char>) -> Option<(Seq<char>, Seq<char>)> {
    match last_non_flag(s) {
        Some(k) => if k >= 1 && !s.take(k).contains('\n') {
            Some((s.take(k + 1), s.skip(k + 1)))
        } else {
            None
        },
        None => None,
    }
}

/// The error a flag raises for a version, if any.
pub open spec fn flag_error(version: PythonVersion, c: char) -> Option<VersionError> {
    if c == 't' && version_lt(version, PythonVersion { major: 3, minor: 13, micro: 0, releaselevel: ReleaseLevel::Final, serial: 0 }) {
        Some(VersionError::FreeThreadedBefore313)
    } else if c == 'm' && !version_lt(version, PythonVersion { major: 3, minor: 8, micro: 0, releaselevel: ReleaseLevel::Final, serial: 0 }) {
        Some(VersionError::PymallocFrom38)
    } else if c == 'u' && !version_lt(version, PythonVersion { major: 3, minor: 3, micro: 0, releaselevel: ReleaseLevel::Final, serial: 0 }) {
        Some(VersionError::Ucs4From33)
    } else {
        None
    }
}

/// The error of the first flag in `flags` that raises one.
pub open spec fn first_flag_error(version: PythonVersion, flags: Seq<char>) -> Option<VersionError>
    decreases flags.len(),
{
    if flags.len() == 0 {
        None
    } else {
        match flag_error(version, flags[0]) {
            Some(e) => Some(e),
            None => first_flag_error(version, flags.drop_first()),
        }
    }
}

/// The ABI that a run of flags states: each flag present states its property.
pub open spec fn abi_of_flags(flags: Seq<char>) -> CPythonAbiInfo {
    CPythonAbiInfo {
        free_threaded: if flags.contains('t') { Some(true) } else { None },
        debug: flags.contains('d'),
        pymalloc: if flags.contains('m') { Some(true) } else { None },
        ucs4: if flags.contains('u') { Some(true) } else { None },
    }
}

/// The CPython implementation that `s` describes: a Python version followed
/// by optional ABI flags (`d` debug, `t` free-threaded from 3.13, `m`
/// pymalloc before 3.8, `u` UCS-4 before 3.3).
pub open spec fn spec_parse_cpython(s: Seq<char>) -> Result<CPythonImplementation, VersionError> {
    match spec_split_flags(s) {
        None => Err(VersionError::InvalidCPythonVersion),
        Some((v, flags)) => match spec_parse_python_version(v) {
            None => Err(VersionError::InvalidPythonVersion),
            Some(version) => match first_flag_error(version, flags) {
                Some(e) => Err(e),
                None => Ok(CPythonImplementation { version, abi_info: abi_of_flags(flags) }),
            },
        },
    }
}

/// The last non-flag character of a text is that of its part before a run
/// of flags.
proof fn lemma_last_non_flag_before_flags(v: Seq<char>, flags: Seq<char>)
    requires
        v.len() > 0,
        !is_flag(v.last()),
        forall|i: int| 0 <= i < flags.len() ==> is_flag(#[trigger] flags[i]),
    ensures
        last_non_flag(v + flags) == Some(v.len() - 1),
    decreases flags.len(),
{
    if flags.len() == 0 {
        assert(v + flags =~= v);
    } else {
        assert((v + flags).drop_last() =~= v + flags.drop_last());
        lemma_last_non_flag_before_flags(v, flags.drop_last());
    }
}

/// The first flag error is that of some flag, and there is one when some
/// flag raises one.
proof fn lemma_first_flag_error(version: PythonVersion, flags: Seq<char>)
    ensures
        first_flag_error(version, flags) is Some <==> exists|i: int|
            0 <= i < flags.len() && (#[trigger] flag_error(version, flags[i])) is Some,
    decreases flags.len(),
{
    if flags.len() > 0 {
        lemma_first_flag_error(version, flags.drop_first());
        if flag_error(version, flags[0]) is None {
            if exists|i: int| 0 <= i < flags.len() && (#[trigger] flag_error(version, flags[i])) is Some {
                let i = choose|i: int| 0 <= i < flags.len() && (#[trigger] flag_error(version, flags[i])) is Some;
                assert(flags.drop_first()[i - 1] == flags[i]);
            }
            assert forall|i: int| 0 <= i < flags.drop_first().len() && (#[trigger] flag_error(version, flags.drop_first()[i])) is Some
                implies exists|j: int| 0 <= j < flags.len() && (#[trigger] flag_error(version, flags[j])) is Some by {
                assert(flags[i + 1] == flags.drop_first()[i]);
            }
        }
    }
}

/// A version followed by ABI flags is refused exactly when some flag does
/// not fit the version (`t` before 3.13, `m` from 3.8, `u` from 3.3), and
/// otherwise describes that version with each flag present stating its
/// property.
pub proof fn law_cpython_flags(v: Seq<char>, flags: Seq<char>, version: PythonVersion)
    requires
        spec_parse_python_version(v) == Some(version),
        v.len() >= 2,
        !is_flag(v.last()),
        !v.contains('\n'),
        forall|i: int| 0 <= i < flags.len() ==> is_flag(#[trigger] flags[i]),
    ensures
        spec_parse_cpython(v + flags) is Err <==> exists|i: int|
            0 <= i < flags.len() && (#[trigger] flag_error(version, flags[i])) is Some,
        spec_parse_cpython(v + flags) is Ok ==> spec_parse_cpython(v + flags) == Ok::<
            CPythonImplementation,
            VersionError,
        >(CPythonImplementation { version, abi_info: abi_of_flags(flags) }),
{
    lemma_last_non_flag_before_flags(v, flags);
    let s = v + flags;
    let k = v.len() - 1;
    assert(s.take(k + 1) =~= v);
    assert(s.skip(k + 1) =~= flags);
    assert(!s.take(k).contains('\n')) by {
        if s.take(k).contains('\n') {
            let j = choose|j: int| 0 <= j < s.take(k).len() && s.take(k)[j] == '\n';
            assert(v[j] == '\n');
        }
    }
    lemma_first_flag_error(version, flags);
}

fn is_flag_char(c: char) -> (res: bool)
    ensures
        res == is_flag(c),
{
    c == 'd' || c == 't' || c == 'm' || c == 'u'
}

/// Finds the index of the last character of `s` that is not a flag.
fn find_last_non_flag(s: &[char]) -> (res: Option<usize>)
    ensures
        match res {
            Some(k) => last_non_flag(s@) == Some(k as int) && k < s.len(),
            None => last_non_flag(s@) is None,
        },
{
    let mut n: usize = s.len();
    assert(s@.take(s@.len() as int) =~= s@);
    while n > 0
        invariant
            n <= s.len(),
            last_non_flag(s@) == last_non_flag(s@.take(n as int)),
        decreases n,
    {
        let ghost prefix = s@.take(n as int);
        if !is_flag_char(s[n - 1]) {
            return Some(n - 1);
        }
        assert(prefix.drop_last() =~= s@.take(n - 1));
        n = n - 1;
    }
    None
}

/// The flag error for `c` on `version`.
fn check_flag(version: &PythonVersion, c: char) -> (res: Option<VersionError>)
    ensures
        res == flag_error(*version, c),
{
    if c == 't' && version.precedes(&PythonVersion::simple(3, 13)) {
        Some(VersionError::FreeThreadedBefore313)
    } else if c == 'm' && !version.precedes(&PythonVersion::simple(3, 8)) {
        Some(VersionError::PymallocFrom38)
    } else if c == 'u' && !version.precedes(&PythonVersion::simple(3, 3)) {
        Some(VersionError::Ucs4From33)
    } else {
        None
    }
}

/// Parses a CPython implementation given as characters.
pub fn parse_cpython_implementation_chars(s: &[char]) -> (res: Result<CPythonImplementation, VersionError>)
    ensures
        res == spec_parse_cpython(s@),
{
    let k = match find_last_non_flag(s) {
        Some(k) => k,
        None => {
            return Err(VersionError::InvalidCPythonVersion);
        },
    };
    if k < 1 {
        return Err(VersionError::InvalidCPythonVersion);
    }
    assert(s@.subrange(0, s@.len() as int) =~= s@);
    match find_char_at(s, 0, '\n') {
        Some(i) => {
            if i < k {
                proof {
                    text::lemma_find_char(s@.subrange(0, s@.len() as int), '\n');
                    assert(s@.take(k as int)[i as int] == '\n');
                }
                return Err(VersionError::InvalidCPythonVersion);
            }
            proof {
                text::lemma_find_char(s@.subrange(0, s@.len() as int), '\n');
                assert forall|j: int| 0 <= j < k implies s@.take(k as int)[j] != '\n' by {
                    assert(s@.subrange(0, s@.len() as int)[j] == s@[j]);
                }
            }
        },
        None => {
            proof {
                text::lemma_find_char(s@.subrange(0, s@.len() as int), '\n');
                assert forall|j: int| 0 <= j < k implies s@.take(k as int)[j] != '\n' by {
                    assert(s@.subrange(0, s@.len() as int)[j] == s@[j]);
                }
            }
        },
    }
    let version_chars = sub_chars(s, 0, k + 1);
    proof {
        assert(version_chars@ =~= s@.take(k + 1));
    }
    let version = match parse_python_version_chars(version_chars.as_slice()) {
        Ok(v) => v,
        Err(_) => {
            return Err(VersionError::InvalidPythonVersion);
        },
    };
    let ghost flags = s@.skip(k + 1);
    let mut abi_info = CPythonAbiInfo::unstated();
    let mut i: usize = k + 1;
    while i < s.len()
        invariant
            1 <= k,
            k + 1 <= i <= s.len(),
            flags == s@.skip(k + 1),
            last_non_flag(s@) == Some(k as int),
            spec_split_flags(s@) == Some((s@.take(k + 1), flags)),
            spec_parse_python_version(s@.take(k + 1)) == Some(version),
            first_flag_error(version, flags) == first_flag_error(version, s@.subrange(i as int, s@.len() as int)),
            abi_info == abi_of_flags(s@.subrange(k + 1, i as int)),
        decreases s.len() - i,
    {
        let c = s[i];
        let ghost rest = s@.subrange(i as int, s@.len() as int);
        assert(rest[0] == c);
        match check_flag(&version, c) {
            Some(e) => {
                return Err(e);
            },
            None => {},
        }
        assert(rest.drop_first() =~= s@.subrange(i + 1, s@.len() as int));
        if c == 'd' {
            abi_info.debug = true;
        } else if c == 't' {
            abi_info.free_threaded = Some(true);
        } else if c == 'm' {
            abi_info.pymalloc = Some(true);
        } else if c == 'u' {
            abi_info.ucs4 = Some(true);
        }
        proof {
            let before = s@.subrange(k + 1, i as int);
            let after = s@.subrange(k + 1, i + 1);
            assert(after =~= before.push(c));
            assert forall|x: char| after.contains(x) <==> (before.contains(x) || x == c) by {
                if after.contains(x) {
                    let j = choose|j: int| 0 <= j < after.len() && after[j] == x;
                    if j < before.len() {
                        assert(before[j] == x);
                    }
                }
                if before.contains(x) {
                    let j = choose|j: int| 0 <= j < before.len() && before[j] == x;
                    assert(after[j] == x);
                }
                if x == c {
                    assert(after[before.len() as int] == x);
                }
            }
            assert(last_non_flag(s@) == Some(k as int));
            text_lemma_last_non_flag_suffix(s@, k as int, i as int);
        }
        i = i + 1;
    }
    assert(s@.subrange(i as int, s@.len() as int).len() == 0);
    assert(s@.subrange(k + 1, i as int) =~= flags);
    Ok(CPythonImplementation { version, abi_info })
}

/// Every character after the last non-flag character is a flag.
proof fn text_lemma_last_non_flag_suffix(s: Seq<char>, k: int, i: int)
    requires
        last_non_flag(s) == Some(k),
        0 <= k < i < s.len(),
    ensures
        is_flag(s[i]),
    decreases s.len(),
{
    if i == s.len() - 1 {
        assert(is_flag(s.last()));
    } else {
        assert(is_flag(s.last()));
        assert(s.drop_last()[i] == s[i]);
        text_lemma_last_non_flag_suffix(s.drop_last(), k, i);
    }
}

/// Parses a CPython implementation: a Python version followed by optional ABI
/// flags, e.g. `3.14`, `3.14.5`, `3.14dt`, `2.7mu`.
pub fn parse_cpython_implementation(value: &str) -> (res: Result<CPythonImplementation, VersionError>)
    ensures
        res == spec_parse_cpython(value@),
{
    let chars = chars_of(value);
    parse_cpython_implementation_chars(chars.as_slice())
}

/// A PyPy release: major, minor and patch numbers.
#[derive(Copy, Clone, Debug, Default, PartialEq, Eq, Hash)]
pub struct PyPyVersion(pub u8, pub u8, pub u8);

impl PyPyVersion {
    /// The release `<major>.<minor>.<patch>`.
    pub fn from_parts(major: u8, minor: u8, patch: u8) -> (v: PyPyVersion)
        ensures
            v.0 == major && v.1 == minor && v.2 == patch,
    {
        PyPyVersion(major, minor, patch)
    }

    /// The major number.
    pub fn major(&self) -> (n: u8)
        ensures
            n == self.0,
    {
        self.0
    }

    /// The minor number.
    pub fn minor(&self) -> (n: u8)
        ensures
            n == self.1,
    {
        self.1
    }

    /// The patch number.
    pub fn patch(&self) -> (n: u8)
        ensures
            n == self.2,
    {
        self.2
    }
}

/// The number that a dot-separated component gives, `str::parse::<u8>` style.
pub open spec fn spec_component(s: Seq<char>) -> Option<u8> {
    match text::spec_parse_uint(s, 255) {
        Some(n) => Some(n as u8),
        None => None,
    }
}

/// The PyPy release that `s` denotes: dot-separated numbers, of which the
/// first is required and up to two more are read (missing ones are 0, further
/// ones are ignored).
pub open spec fn spec_parse_pypy_version(s: Seq<char>) -> Option<PyPyVersion> {
    let (c0, r0) = text::split_first(s, '.');
    match spec_component(c0) {
        None => None,
        Some(major) => match r0 {
            None => Some(PyPyVersion(major, 0, 0)),
            Some(r) => {
                let (c1, r1) = text::split_first(r, '.');
                match spec_component(c1) {
                    None => None,
                    Some(minor) => match r1 {
                        None => Some(PyPyVersion(major, minor, 0)),
                        Some(r2) => match spec_component(text::split_first(r2, '.').0) {
                            None => None,
                            Some(patch) => Some(PyPyVersion(major, minor, patch)),
                        },
                    },
                }
            },
        },
    }
}

/// The component of `s[from..]` up to the next `.`, and where the rest starts.
fn next_component(s: &[char], from: usize) -> (res: (Option<u8>, Option<usize>))
    requires
        from <= s.len(),
    ensures
        ({
            let (c, r) = text::split_first(s@.subrange(from as int, s@.len() as int), '.');
            &&& res.0 == spec_component(c)
            &&& match res.1 {
                Some(next) => r == Some(s@.subrange(next as int, s@.len() as int)) && from < next <= s.len(),
                None => r is None,
            }
        }),
{
    let ghost rest = s@.subrange(from as int, s@.len() as int);
    match find_char_at(s, from, '.') {
        Some(i) => {
            let digits = sub_chars(s, from, i);
            proof {
                assert(rest.take((i - from) as int) =~= digits@);
                assert(rest.skip((i - from) + 1) =~= s@.subrange(i + 1, s@.len() as int));
            }
            let value = match parse_uint(&digits, 255) {
                Some(n) => Some(n as u8),
                None => None,
            };
            (value, Some(i + 1))
        },
        None => {
            let digits = sub_chars(s, from, s.len());
            let value = match parse_uint(&digits, 255) {
                Some(n) => Some(n as u8),
                None => None,
            };
            (value, None)
        },
    }
}

/// Parses a PyPy release given as characters.
pub fn parse_pypy_version_chars(s: &[char]) -> (res: Result<PyPyVersion, VersionError>)
    ensures
        match res {
            Ok(v) => spec_parse_pypy_version(s@) == Some(v),
            Err(e) => spec_parse_pypy_version(s@) is None && e == VersionError::InvalidPyPyVersion,
        },
{
    assert(s@.subrange(0, s@.len() as int) =~= s@);
    let (major, r0) = next_component(s, 0);
    let major = match major {
        Some(m) => m,
        None => {
            return Err(VersionError::InvalidPyPyVersion);
        },
    };
    let r0 = match r0 {
        Some(r) => r,
        None => {
            return Ok(PyPyVersion(major, 0, 0));
        },
    };
    let (minor, r1) = next_component(s, r0);
    let minor = match minor {
        Some(m) => m,
        None => {
            return Err(VersionError::InvalidPyPyVersion);
        },
    };
    let r1 = match r1 {
        Some(r) => r,
        None => {
            return Ok(PyPyVersion(major, minor, 0));
        },
    };
    let (patch, _) = next_component(s, r1);
    match patch {
        Some(p) => Ok(PyPyVersion(major, minor, p)),
        None => Err(VersionError::InvalidPyPyVersion),
    }
}

/// Parses a PyPy release: `<major>[.<minor>[.<patch>]]`.
pub fn parse_pypy_version(value: &str) -> (res: Result<PyPyVersion, VersionError>)
    ensures
        match res {
            Ok(v) => spec_parse_pypy_version(value@) == Some(v),
            Err(e) => spec_parse_pypy_version(value@) is None && e == VersionError::InvalidPyPyVersion,
        },
{
    let chars = chars_of(value);
    parse_pypy_version_chars(chars.as_slice())
}

/// A PyPy interpreter: the Python version it implements and, when known, the
/// PyPy release.
#[derive(Copy, Clone, Debug, PartialEq, Eq)]
pub struct PyPyImplementation {
    pub version: PythonVersion,
    pub pypy_version: Option<PyPyVersion>,
}

/// The PyPy implementation that `s` describes: a Python version, optionally
/// followed by `_` and the PyPy release.
pub open spec fn spec_parse_pypy(s: Seq<char>) -> Result<PyPyImplementation, VersionError> {
    let (v, rest) = text::split_first(s, '_');
    match spec_parse_python_version(v) {
        None => Err(VersionError::InvalidPythonVersion),
        Some(version) => match rest {
            None => Ok(PyPyImplementation { version, pypy_version: None }),
            Some(r) => match spec_parse_pypy_version(r) {
                None => Err(VersionError::InvalidPyPyVersion),
                Some(p) => Ok(PyPyImplementation { version, pypy_version: Some(p) }),
            },
        },
    }
}

/// Parses a PyPy implementation given as characters.
pub fn parse_pypy_implementation_chars(s: &[char]) -> (res: Result<PyPyImplementation, VersionError>)
    ensures
        res == spec_parse_pypy(s@),
{
    assert(s@.subrange(0, s@.len() as int) =~= s@);
    match find_char_at(s, 0, '_') {
        Some(i) => {
            let head = sub_chars(s, 0, i);
            let tail = sub_chars(s, i + 1, s.len());
            assert(head@ =~= s@.take(i as int));
            assert(tail@ =~= s@.skip(i + 1));
            let version = match parse_python_version_chars(head.as_slice()) {
                Ok(v) => v,
                Err(_) => {
                    return Err(VersionError::InvalidPythonVersion);
                },
            };
            match parse_pypy_version_chars(tail.as_slice()) {
                Ok(p) => Ok(PyPyImplementation { version, pypy_version: Some(p) }),
                Err(_) => Err(VersionError::InvalidPyPyVersion),
            }
        },
        None => {
            match parse_python_version_chars(s) {
                Ok(version) => Ok(PyPyImplementation { version, pypy_version: None }),
                Err(_) => Err(VersionError::InvalidPythonVersion),
            }
        },
    }
}

/// Parses a PyPy implementation, e.g. `3.11` or `3.11_7.3`.
pub fn parse_pypy_implementation(value: &str) -> (res: Result<PyPyImplementation, VersionError>)
    ensures
        res == spec_parse_pypy(value@),
{
    let chars = chars_of(value);
    parse_pypy_implementation_chars(chars.as_slice())
}

/// A Python interpreter implementation.
#[derive(Copy, Clone, Debug, PartialEq, Eq)]
pub enum PythonImplementation {
    CPython(CPythonImplementation),
    PyPy(PyPyImplementation),
}

impl PythonImplementation {
    /// The Python version the implementation provides.
    pub open spec fn spec_version(self) -> PythonVersion {
        match self {
            PythonImplementation::CPython(c) => c.version,
            PythonImplementation::PyPy(p) => p.version,
        }
    }

    /// The Python version the implementation provides.
    pub fn version(&self) -> (v: PythonVersion)
        ensures
            v == self.spec_version(),
    {
        match self {
            PythonImplementation::CPython(c) => c.version,
            PythonImplementation::PyPy(p) => p.version,
        }
    }
}

/// The implementation and version that `version` describes for the given
/// implementation.
pub open spec fn spec_parse(implementation: Implementation, version: Seq<char>) -> Result<PythonImplementation, VersionError> {
    match implementation {
        Implementation::CPython => match spec_parse_cpython(version) {
            Ok(c) => Ok(PythonImplementation::CPython(c)),
            Err(e) => Err(e),
        },
        Implementation::PyPy => match spec_parse_pypy(version) {
            Ok(p) => Ok(PythonImplementation::PyPy(p)),
            Err(e) => Err(e),
        },
    }
}

/// Parses the version text of the given implementation.
pub fn parse_chars(implementation: Implementation, version: &[char]) -> (res: Result<PythonImplementation, VersionError>)
    ensures
        res == spec_parse(implementation, version@),
{
    match implementation {
        Implementation::CPython => match parse_cpython_implementation_chars(version) {
            Ok(c) => Ok(PythonImplementation::CPython(c)),
            Err(e) => Err(e),
        },
        Implementation::PyPy => match parse_pypy_implementation_chars(version) {
            Ok(p) => Ok(PythonImplementation::PyPy(p)),
            Err(e) => Err(e),
        },
    }
}

/// Parses the version text of the given implementation.
pub fn parse(implementation: Implementation, version: &str) -> (res: Result<PythonImplementation, VersionError>)
    ensures
        res == spec_parse(implementation, version@),
{
    let chars = chars_of(version);
    parse_chars(implementation, chars.as_slice())
}

} // verus!
