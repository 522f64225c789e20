//! Interpreter constraints: which Python implementations and versions may
//! run a PEX, and the interpreter binary names that may satisfy them.

use vstd::prelude::*;
use vstd::string::StringExecFns;

use pep440_rs::{VersionSpecifiers, VersionSpecifiersParseError};

use crate::interpreter::InterpreterDetails;
use crate::text::{dec, has_prefix, push_decimal};
use crate::version::PythonImplementation;

verus! {

/// Which of the compatible interpreters to prefer.
#[derive(Copy, Clone, Debug, PartialEq, Eq)]
pub enum SelectionStrategy {
    Oldest,
    Newest,
}

/// A Python version to look for by binary name: `<major>.<minor>` or just
/// `<major>`.
#[derive(Copy, Clone, Debug, PartialEq, Eq, Structural)]
pub enum VersionSpec {
    MajorMinor(u8, u8),
    Major(u8),
}

/// The implementation an interpreter constraint asks for: any CPython, a
/// free-threaded CPython, a CPython with the GIL, or PyPy.
#[derive(Copy, Clone, Debug, PartialEq, Eq, Structural)]
pub enum InterpreterImplementation {
    CPython,
    CPythonFreeThreaded,
    CPythonGil,
    PyPy,
}

/// Whether an interpreter of implementation `other` satisfies a constraint
/// asking for `wanted`: any CPython satisfies `CPython`; a CPython that does
/// not state its threading counts as having the GIL.
pub open spec fn spec_matches(wanted: InterpreterImplementation, other: InterpreterImplementation) -> bool {
    match wanted {
        InterpreterImplementation::CPython => other != InterpreterImplementation::PyPy,
        InterpreterImplementation::CPythonFreeThreaded => other == InterpreterImplementation::CPythonFreeThreaded,
        InterpreterImplementation::CPythonGil => other == InterpreterImplementation::CPython || other
            == InterpreterImplementation::CPythonGil,
        InterpreterImplementation::PyPy => other == InterpreterImplementation::PyPy,
    }
}

/// The implementation kind of a Python implementation: PyPy, or CPython as
/// free-threaded, with the GIL, or unstated.
pub open spec fn spec_kind_of(pv: PythonImplementation) -> InterpreterImplementation {
    match pv {
        PythonImplementation::CPython(c) => match c.abi_info.free_threaded {
            Some(true) => InterpreterImplementation::CPythonFreeThreaded,
            Some(false) => InterpreterImplementation::CPythonGil,
            None => InterpreterImplementation::CPython,
        },
        PythonImplementation::PyPy(_) => InterpreterImplementation::PyPy,
    }
}

/// The implementation a requirement name and extras denote: `pypy` with no
/// extras, `cpython` with none, with `free-threaded` or with `gil`.
pub open spec fn spec_implementation_named(name: Seq<char>, extras: Seq<Seq<char>>) -> Option<InterpreterImplementation> {
    if name == "pypy"@ && extras.len() == 0 {
        Some(InterpreterImplementation::PyPy)
    } else if name == "cpython"@ {
        if extras.len() == 0 {
            Some(InterpreterImplementation::CPython)
        } else if extras.len() == 1 && extras[0] == "free-threaded"@ {
            Some(InterpreterImplementation::CPythonFreeThreaded)
        } else if extras.len() == 1 && extras[0] == "gil"@ {
            Some(InterpreterImplementation::CPythonGil)
        } else {
            None
        }
    } else {
        None
    }
}

impl InterpreterImplementation {
    /// Whether an interpreter of implementation `other` satisfies this one.
    pub fn matches(&self, other: InterpreterImplementation) -> (res: bool)
        ensures
            res == spec_matches(*self, other),
    {
        match self {
            InterpreterImplementation::CPython => other != InterpreterImplementation::PyPy,
            InterpreterImplementation::CPythonFreeThreaded => other == InterpreterImplementation::CPythonFreeThreaded,
            InterpreterImplementation::CPythonGil => other == InterpreterImplementation::CPython || other
                == InterpreterImplementation::CPythonGil,
            InterpreterImplementation::PyPy => other == InterpreterImplementation::PyPy,
        }
    }

    /// The implementation kind of a Python implementation.
    pub fn of_implementation(pv: PythonImplementation) -> (i: InterpreterImplementation)
        ensures
            i == spec_kind_of(pv),
    {
        match pv {
            PythonImplementation::CPython(c) => match c.abi_info.free_threaded {
                Some(free_threaded) => if free_threaded {
                    InterpreterImplementation::CPythonFreeThreaded
                } else {
                    InterpreterImplementation::CPythonGil
                },
                None => InterpreterImplementation::CPython,
            },
            PythonImplementation::PyPy(_) => InterpreterImplementation::PyPy,
        }
    }

    /// The implementation kind of the interpreter that reported `details`.
    pub fn of(details: &InterpreterDetails) -> (i: Option<InterpreterImplementation>)
        ensures
            i == Some(
                spec_kind_of(
                    crate::interpreter::spec_python_implementation(
                        details.version,
                        details.pypy_version,
                        details.cpython_abi_info,
                    ),
                ),
            ),
    {
        Some(Self::of_implementation(details.python_implementation()))
    }

    /// The implementation a requirement name (normalised) and extras denote.
    pub fn named(name: &str, extras: &Vec<String>) -> (res: Option<InterpreterImplementation>)
        ensures
            res == spec_implementation_named(name@, crate::tags::views(extras@)),
    {
        let ghost ex = crate::tags::views(extras@);
        let pypy = String::from_str("pypy");
        let cpython = String::from_str("cpython");
        let free_threaded = String::from_str("free-threaded");
        let gil = String::from_str("gil");
        let name = String::from_str(name);
        if name == pypy && extras.len() == 0 {
            return Some(InterpreterImplementation::PyPy);
        }
        if name == cpython {
            if extras.len() == 0 {
                return Some(InterpreterImplementation::CPython);
            }
            if extras.len() == 1 {
                assert(ex[0] == extras@[0]@);
                if extras[0] == free_threaded {
                    return Some(InterpreterImplementation::CPythonFreeThreaded);
                }
                if extras[0] == gil {
                    return Some(InterpreterImplementation::CPythonGil);
                }
            }
        }
        None
    }
}

impl From<PythonImplementation> for InterpreterImplementation {
    fn from(value: PythonImplementation) -> (r: InterpreterImplementation) {
        Self::of_implementation(value)
    }
}

impl vstd::std_specs::convert::FromSpecImpl<PythonImplementation> for InterpreterImplementation {
    open spec fn obeys_from_spec() -> bool {
        true
    }

    open spec fn from_spec(v: PythonImplementation) -> InterpreterImplementation {
        spec_kind_of(v)
    }
}

/// The stem of a Python binary name.
#[derive(Copy, Clone, Debug, PartialEq, Eq, Structural)]
pub enum BinaryName {
    Python,
    PyPy,
}

/// A Python binary to look for: `<stem><major>.<minor>`, with a `t` suffix for
/// a free-threaded CPython.
#[derive(Copy, Clone, Debug, PartialEq, Eq, Structural)]
pub struct PythonBinarySpec {
    pub name: BinaryName,
    pub major: u8,
    pub minor: u8,
    pub free_threaded: bool,
}

/// The newest stable CPython release's minor version; binaries up to the
/// next minor version are looked for.
pub const LATEST_STABLE_MINOR: u8 = 14;

/// The Python versions looked for, oldest first: 2.7, then 3.5 up to the
/// minor version after the latest stable one.
pub open spec fn spec_supported_versions() -> Seq<(u8, u8)> {
    seq![(2u8, 7u8)] + Seq::new(
        (LATEST_STABLE_MINOR + 1 - 5 + 1) as nat,
        |i: int| (3u8, (5 + i) as u8),
    )
}

/// The Python versions looked for, newest first.
pub open spec fn spec_supported_versions_newest_first() -> Seq<(u8, u8)> {
    spec_supported_versions().reverse()
}

/// The supported versions, oldest first.
pub fn supported_versions() -> (v: Vec<(u8, u8)>)
    ensures
        v@ == spec_supported_versions(),
{
    let mut v: Vec<(u8, u8)> = Vec::new();
    v.push((2, 7));
    let mut minor: u8 = 5;
    while minor <= LATEST_STABLE_MINOR + 1
        invariant
            5 <= minor <= LATEST_STABLE_MINOR + 2,
            v@ == seq![(2u8, 7u8)] + Seq::new((minor - 5) as nat, |i: int| (3u8, (5 + i) as u8)),
        decreases LATEST_STABLE_MINOR + 2 - minor,
    {
        v.push((3, minor));
        assert(v@ =~= seq![(2u8, 7u8)] + Seq::new((minor + 1 - 5) as nat, |i: int| (3u8, (5 + i) as u8)));
        minor = minor + 1;
    }
    assert(v@ =~= spec_supported_versions());
    v
}

/// The supported versions, newest first.
pub fn supported_versions_newest_first() -> (v: Vec<(u8, u8)>)
    ensures
        v@ == spec_supported_versions_newest_first(),
{
    let oldest = supported_versions();
    let mut v: Vec<(u8, u8)> = Vec::new();
    let mut i: usize = oldest.len();
    while i > 0
        invariant
            i <= oldest@.len(),
            v@ == oldest@.subrange(i as int, oldest@.len() as int).reverse(),
        decreases i,
    {
        i = i - 1;
        v.push(oldest[i]);
        assert(v@ =~= oldest@.subrange(i as int, oldest@.len() as int).reverse());
    }
    assert(oldest@.subrange(0, oldest@.len() as int) =~= oldest@);
    v
}

/// `s` with `x` added at the end unless it is there already: what inserting
/// into an insertion-ordered set does.
pub open spec fn set_insert(s: Seq<PythonBinarySpec>, x: PythonBinarySpec) -> Seq<PythonBinarySpec> {
    if s.contains(x) {
        s
    } else {
        s.push(x)
    }
}

/// Whether `(major, minor)` is 3.13 or newer, the versions with free-threaded
/// CPython builds.
pub open spec fn has_free_threaded(major: u8, minor: u8) -> bool {
    major > 3 || (major == 3 && minor >= 13)
}

/// The binaries to look for to satisfy an implementation at a version, added
/// to `s`: for no particular implementation `python`, `python…t` (3.13 on)
/// and `pypy`; for CPython or CPython with the GIL `python`; for
/// free-threaded CPython `python…t` (3.13 on only); for PyPy `pypy`.
pub open spec fn spec_insert_specs(
    s: Seq<PythonBinarySpec>,
    implementation: Option<InterpreterImplementation>,
    major: u8,
    minor: u8,
) -> Seq<PythonBinarySpec> {
    let python = PythonBinarySpec { name: BinaryName::Python, major, minor, free_threaded: false };
    let python_t = PythonBinarySpec { name: BinaryName::Python, major, minor, free_threaded: true };
    let pypy = PythonBinarySpec { name: BinaryName::PyPy, major, minor, free_threaded: false };
    match implementation {
        None => {
            let s1 = set_insert(s, python);
            let s2 = if has_free_threaded(major, minor) {
                set_insert(s1, python_t)
            } else {
                s1
            };
            set_insert(s2, pypy)
        },
        Some(InterpreterImplementation::CPython) => set_insert(s, python),
        Some(InterpreterImplementation::CPythonGil) => set_insert(s, python),
        Some(InterpreterImplementation::CPythonFreeThreaded) => if has_free_threaded(major, minor) {
            set_insert(s, python_t)
        } else {
            s
        },
        Some(InterpreterImplementation::PyPy) => set_insert(s, pypy),
    }
}

fn insert_spec(specs: &mut Vec<PythonBinarySpec>, x: PythonBinarySpec)
    ensures
        final(specs)@ == set_insert(old(specs)@, x),
{
    let mut i: usize = 0;
    while i < specs.len()
        invariant
            i <= specs@.len(),
            specs@ == old(specs)@,
            forall|j: int| 0 <= j < i ==> specs@[j] != x,
        decreases specs.len() - i,
    {
        if specs[i] == x {
            assert(specs@.contains(x));
            return;
        }
        i = i + 1;
    }
    assert(!specs@.contains(x));
    specs.push(x);
}

/// Adds the binaries to look for to satisfy an implementation at a version.
pub fn insert_specs(
    specs: &mut Vec<PythonBinarySpec>,
    implementation: Option<InterpreterImplementation>,
    major: u8,
    minor: u8,
)
    ensures
        final(specs)@ == spec_insert_specs(old(specs)@, implementation, major, minor),
{
    let python = PythonBinarySpec { name: BinaryName::Python, major, minor, free_threaded: false };
    let python_t = PythonBinarySpec { name: BinaryName::Python, major, minor, free_threaded: true };
    let pypy = PythonBinarySpec { name: BinaryName::PyPy, major, minor, free_threaded: false };
    let free_threaded_era = major > 3 || (major == 3 && minor >= 13);
    match implementation {
        None => {
            insert_spec(specs, python);
            if free_threaded_era {
                insert_spec(specs, python_t);
            }
            insert_spec(specs, pypy);
        },
        Some(InterpreterImplementation::CPython) | Some(InterpreterImplementation::CPythonGil) => {
            insert_spec(specs, python);
        },
        Some(InterpreterImplementation::CPythonFreeThreaded) => {
            if free_threaded_era {
                insert_spec(specs, python_t);
            }
        },
        Some(InterpreterImplementation::PyPy) => {
            insert_spec(specs, pypy);
        },
    }
}

/// The binaries looked for at one version, added to `s`, given for each
/// constraint its implementation and whether it admits the version
/// (`admits[c]`): for each admitting constraint in turn, those of its
/// implementation; or, with no constraints and no PEX-compatible binaries
/// asked for, those of any implementation.
pub open spec fn spec_insert_version(
    s: Seq<PythonBinarySpec>,
    implementations: Seq<Option<InterpreterImplementation>>,
    admits: Seq<bool>,
    version: (u8, u8),
    generic: bool,
    n: nat,
) -> Seq<PythonBinarySpec>
    decreases n,
{
    if generic {
        spec_insert_specs(s, None, version.0, version.1)
    } else if n == 0 {
        s
    } else {
        let before = spec_insert_version(s, implementations, admits, version, generic, (n - 1) as nat);
        if admits[n - 1] {
            spec_insert_specs(before, implementations[n - 1], version.0, version.1)
        } else {
            before
        }
    }
}

/// The binaries looked for at the first `n` versions, added to `s`;
/// `admits[v][c]` tells whether constraint `c` admits version `v`.
pub open spec fn spec_insert_versions(
    s: Seq<PythonBinarySpec>,
    implementations: Seq<Option<InterpreterImplementation>>,
    admits: Seq<Seq<bool>>,
    versions: Seq<(u8, u8)>,
    generic: bool,
    n: nat,
) -> Seq<PythonBinarySpec>
    decreases n,
{
    if n == 0 {
        s
    } else {
        let before = spec_insert_versions(s, implementations, admits, versions, generic, (n - 1) as nat);
        spec_insert_version(
            before,
            implementations,
            admits[n - 1],
            versions[n - 1],
            generic,
            implementations.len(),
        )
    }
}

/// The binaries of any implementation at the first `n` versions, added to
/// `s`.
pub open spec fn spec_insert_generic(s: Seq<PythonBinarySpec>, versions: Seq<(u8, u8)>, n: nat) -> Seq<
    PythonBinarySpec,
>
    decreases n,
{
    if n == 0 {
        s
    } else {
        spec_insert_specs(spec_insert_generic(s, versions, (n - 1) as nat), None, versions[n - 1].0, versions[n - 1].1)
    }
}

/// The versions in the order a selection strategy searches them.
pub open spec fn spec_versions_for(strategy: SelectionStrategy) -> Seq<(u8, u8)> {
    match strategy {
        SelectionStrategy::Oldest => spec_supported_versions(),
        SelectionStrategy::Newest => spec_supported_versions_newest_first(),
    }
}

/// The Python binaries to look for, most wanted first and each once: those
/// of a preferred interpreter the constraints admit; then, version by version
/// in the order of the selection strategy, those each admitting constraint
/// asks for (or, with no constraints and no PEX-compatible binaries asked
/// for, those of any implementation); then, when PEX-compatible binaries are
/// asked for, those of any implementation at every version, newest first.
/// `admits[v][c]` tells whether constraint `c` admits the `v`th version of the
/// strategy's order.
pub open spec fn spec_binary_specs(
    implementations: Seq<Option<InterpreterImplementation>>,
    admits: Seq<Seq<bool>>,
    strategy: SelectionStrategy,
    preferred: Option<(InterpreterImplementation, u8, u8)>,
    include_pex_compatible: bool,
) -> Seq<PythonBinarySpec> {
    let s0 = match preferred {
        Some((i, major, minor)) => spec_insert_specs(Seq::empty(), Some(i), major, minor),
        None => Seq::empty(),
    };
    let versions = spec_versions_for(strategy);
    let generic = implementations.len() == 0 && !include_pex_compatible;
    let s1 = spec_insert_versions(s0, implementations, admits, versions, generic, versions.len());
    if include_pex_compatible {
        spec_insert_generic(s1, spec_supported_versions_newest_first(), spec_supported_versions().len())
    } else {
        s1
    }
}

/// Whether `admits` has a row for each of `versions` and a column for each
/// of `n` constraints.
pub open spec fn admits_shape(admits: Seq<Seq<bool>>, versions: nat, n: nat) -> bool {
    admits.len() == versions && forall|v: int| 0 <= v < versions ==> #[trigger] admits[v].len() == n
}

/// The Python binaries to look for, as [`spec_binary_specs`] lists them.
pub fn compatible_binary_specs(
    implementations: &Vec<Option<InterpreterImplementation>>,
    admits: &Vec<Vec<bool>>,
    strategy: SelectionStrategy,
    preferred: Option<(InterpreterImplementation, u8, u8)>,
    include_pex_compatible: bool,
) -> (specs: Vec<PythonBinarySpec>)
    requires
        admits_shape(
            admits@.map_values(|row: Vec<bool>| row@),
            spec_versions_for(strategy).len(),
            implementations@.len(),
        ),
    ensures
        specs@ == spec_binary_specs(
            implementations@,
            admits@.map_values(|row: Vec<bool>| row@),
            strategy,
            preferred,
            include_pex_compatible,
        ),
{
    let ghost table = admits@.map_values(|row: Vec<bool>| row@);
    let mut specs: Vec<PythonBinarySpec> = Vec::new();
    if let Some((i, major, minor)) = preferred {
        insert_specs(&mut specs, Some(i), major, minor);
    }
    let ghost s0 = specs@;
    let versions = match strategy {
        SelectionStrategy::Oldest => supported_versions(),
        SelectionStrategy::Newest => supported_versions_newest_first(),
    };
    let generic = implementations.len() == 0 && !include_pex_compatible;
    let mut v: usize = 0;
    while v < versions.len()
        invariant
            v <= versions@.len(),
            versions@ == spec_versions_for(strategy),
            table == admits@.map_values(|row: Vec<bool>| row@),
            admits_shape(table, versions@.len(), implementations@.len()),
            generic == (implementations@.len() == 0 && !include_pex_compatible),
            specs@ == spec_insert_versions(s0, implementations@, table, versions@, generic, v as nat),
        decreases versions.len() - v,
    {
        let (major, minor) = versions[v];
        let ghost before = specs@;
        if generic {
            insert_specs(&mut specs, None, major, minor);
        } else {
            let row = &admits[v];
            assert(row@ == table[v as int]);
            let mut c: usize = 0;
            while c < implementations.len()
                invariant
                    c <= implementations@.len(),
                    !generic,
                    row@.len() == implementations@.len(),
                    row@ == table[v as int],
                    specs@ == spec_insert_version(
                        before,
                        implementations@,
                        row@,
                        (major, minor),
                        generic,
                        c as nat,
                    ),
                decreases implementations.len() - c,
            {
                if row[c] {
                    insert_specs(&mut specs, implementations[c], major, minor);
                }
                c = c + 1;
            }
        }
        v = v + 1;
    }
    if include_pex_compatible {
        let newest = supported_versions_newest_first();
        let ghost s1 = specs@;
        let mut k: usize = 0;
        while k < newest.len()
            invariant
                k <= newest@.len(),
                newest@ == spec_supported_versions_newest_first(),
                newest@.len() == spec_supported_versions().len(),
                specs@ == spec_insert_generic(s1, newest@, k as nat),
            decreases newest.len() - k,
        {
            let (major, minor) = newest[k];
            insert_specs(&mut specs, None, major, minor);
            k = k + 1;
        }
    }
    specs
}

/// The stem text of a binary name.
pub open spec fn stem_text(name: BinaryName) -> Seq<char> {
    match name {
        BinaryName::Python => "python"@,
        BinaryName::PyPy => "pypy"@,
    }
}

/// The name a binary is looked for by in a pass: `<stem><major>.<minor>[t]`,
/// `<stem><major>` or `<stem>`.
pub open spec fn spec_pass_name(b: PythonBinarySpec, pass: nat) -> Seq<char> {
    if pass == 0 {
        stem_text(b.name) + dec(b.major as nat) + "."@ + dec(b.minor as nat) + if b.free_threaded {
            "t"@
        } else {
            Seq::<char>::empty()
        }
    } else if pass == 1 {
        stem_text(b.name) + dec(b.major as nat)
    } else {
        stem_text(b.name)
    }
}

/// The version a name of a pass stands for.
pub open spec fn spec_pass_version(b: PythonBinarySpec, pass: nat) -> Option<VersionSpec> {
    if pass == 0 {
        Some(VersionSpec::MajorMinor(b.major, b.minor))
    } else if pass == 1 {
        Some(VersionSpec::Major(b.major))
    } else {
        None
    }
}

/// The position of key `k` in `m`, if it is there.
pub open spec fn key_index(m: Seq<(Seq<char>, Option<VersionSpec>)>, k: Seq<char>) -> Option<nat>
    decreases m.len(),
{
    if m.len() == 0 {
        None
    } else if m.last().0 == k {
        match key_index(m.drop_last(), k) {
            Some(i) => Some(i),
            None => Some((m.len() - 1) as nat),
        }
    } else {
        key_index(m.drop_last(), k)
    }
}

/// What inserting into an insertion-ordered map does: a key that is there
/// keeps its place and takes the new value; a new key goes at the end.
pub open spec fn map_insert(
    m: Seq<(Seq<char>, Option<VersionSpec>)>,
    k: Seq<char>,
    v: Option<VersionSpec>,
) -> Seq<(Seq<char>, Option<VersionSpec>)> {
    match key_index(m, k) {
        Some(i) => m.update(i as int, (k, v)),
        None => m.push((k, v)),
    }
}

/// The names of the first `n` binaries of a pass, inserted into `m`.
pub open spec fn spec_names_pass(
    m: Seq<(Seq<char>, Option<VersionSpec>)>,
    specs: Seq<PythonBinarySpec>,
    pass: nat,
    n: nat,
) -> Seq<(Seq<char>, Option<VersionSpec>)>
    decreases n,
{
    if n == 0 {
        m
    } else {
        let before = spec_names_pass(m, specs, pass, (n - 1) as nat);
        map_insert(before, spec_pass_name(specs[n - 1], pass), spec_pass_version(specs[n - 1], pass))
    }
}

/// The binary names to look for, each once and with the version it stands
/// for: first every binary's `<stem><major>.<minor>[t]`, then every
/// `<stem><major>`, then every bare `<stem>`, each pass in the order of the
/// binaries.
pub open spec fn spec_binary_names(specs: Seq<PythonBinarySpec>) -> Seq<(Seq<char>, Option<VersionSpec>)> {
    let m0 = spec_names_pass(Seq::empty(), specs, 0, specs.len());
    let m1 = spec_names_pass(m0, specs, 1, specs.len());
    spec_names_pass(m1, specs, 2, specs.len())
}

/// The texts of the entries of a name map.
pub open spec fn name_entries(m: Seq<(String, Option<VersionSpec>)>) -> Seq<(Seq<char>, Option<VersionSpec>)> {
    m.map_values(|e: (String, Option<VersionSpec>)| (e.0@, e.1))
}

fn pass_name(b: &PythonBinarySpec, pass: u8) -> (s: String)
    requires
        pass <= 2,
    ensures
        s@ == spec_pass_name(*b, pass as nat),
{
    let mut s = String::from_str(
        match b.name {
            BinaryName::Python => "python",
            BinaryName::PyPy => "pypy",
        },
    );
    if pass <= 1 {
        push_decimal(&mut s, b.major as u64);
    }
    if pass == 0 {
        let ghost base = s@;
        s.append(".");
        push_decimal(&mut s, b.minor as u64);
        let ghost mid = s@;
        if b.free_threaded {
            s.append("t");
        }
        proof {
            vstd::seq_lib::lemma_concat_associative(base, "."@, dec(b.minor as nat));
            assert(mid + Seq::<char>::empty() =~= mid);
        }
    }
    s
}

fn pass_version(b: &PythonBinarySpec, pass: u8) -> (v: Option<VersionSpec>)
    requires
        pass <= 2,
    ensures
        v == spec_pass_version(*b, pass as nat),
{
    if pass == 0 {
        Some(VersionSpec::MajorMinor(b.major, b.minor))
    } else if pass == 1 {
        Some(VersionSpec::Major(b.major))
    } else {
        None
    }
}

proof fn lemma_key_index(m: Seq<(Seq<char>, Option<VersionSpec>)>, k: Seq<char>)
    ensures
        match key_index(m, k) {
            Some(i) => i < m.len() && m[i as int].0 == k && forall|j: int| 0 <= j < i ==> m[j].0 != k,
            None => forall|j: int| 0 <= j < m.len() ==> m[j].0 != k,
        },
    decreases m.len(),
{
    if m.len() > 0 {
        let d = m.drop_last();
        lemma_key_index(d, k);
        assert forall|j: int| 0 <= j < d.len() implies d[j] == m[j] by {}
    }
}

fn map_insert_exec(m: &mut Vec<(String, Option<VersionSpec>)>, k: String, v: Option<VersionSpec>)
    ensures
        name_entries(final(m)@) == map_insert(name_entries(old(m)@), k@, v),
{
    let ghost e = name_entries(m@);
    proof {
        lemma_key_index(e, k@);
    }
    let mut i: usize = 0;
    while i < m.len()
        invariant
            i <= m@.len(),
            m@ == old(m)@,
            e == name_entries(m@),
            forall|j: int| 0 <= j < i ==> e[j].0 != k@,
            match key_index(e, k@) {
                Some(x) => x < e.len() && e[x as int].0 == k@ && forall|j: int| 0 <= j < x ==> e[j].0 != k@,
                None => forall|j: int| 0 <= j < e.len() ==> e[j].0 != k@,
            },
        decreases m.len() - i,
    {
        assert(e[i as int] == (m@[i as int].0@, m@[i as int].1));
        if m[i].0 == k {
            let ghost kv = k@;
            assert(key_index(e, k@) == Some(i as nat));
            m.set(i, (k, v));
            assert(name_entries(m@) =~= e.update(i as int, (kv, v)));
            return;
        }
        i = i + 1;
    }
    let ghost kv = k@;
    m.push((k, v));
    assert(name_entries(m@) =~= e.push((kv, v)));
}

/// The binary names to look for, as [`spec_binary_names`] lists them.
pub fn binary_names(specs: &Vec<PythonBinarySpec>) -> (names: Vec<(String, Option<VersionSpec>)>)
    ensures
        name_entries(names@) == spec_binary_names(specs@),
{
    let mut names: Vec<(String, Option<VersionSpec>)> = Vec::new();
    let ghost mut start = name_entries(names@);
    assert(start =~= Seq::<(Seq<char>, Option<VersionSpec>)>::empty());
    let mut pass: u8 = 0;
    while pass < 3
        invariant
            pass <= 3,
            pass == 0 ==> name_entries(names@) == Seq::<(Seq<char>, Option<VersionSpec>)>::empty(),
            pass == 1 ==> name_entries(names@) == spec_names_pass(Seq::empty(), specs@, 0, specs@.len()),
            pass == 2 ==> name_entries(names@) == spec_names_pass(
                spec_names_pass(Seq::empty(), specs@, 0, specs@.len()),
                specs@,
                1,
                specs@.len(),
            ),
            pass == 3 ==> name_entries(names@) == spec_binary_names(specs@),
        decreases 3 - pass,
    {
        let ghost before = name_entries(names@);
        let mut i: usize = 0;
        while i < specs.len()
            invariant
                pass < 3,
                i <= specs@.len(),
                name_entries(names@) == spec_names_pass(before, specs@, pass as nat, i as nat),
            decreases specs.len() - i,
        {
            let name = pass_name(&specs[i], pass);
            let version = pass_version(&specs[i], pass);
            map_insert_exec(&mut names, name, version);
            i = i + 1;
        }
        pass = pass + 1;
    }
    names
}

/// The Python binary names to look for on Unix, most wanted first, as
/// [`spec_binary_names`] lists them for the binaries of [`spec_binary_specs`].
pub fn compatible_binary_names(
    implementations: &Vec<Option<InterpreterImplementation>>,
    admits: &Vec<Vec<bool>>,
    strategy: SelectionStrategy,
    preferred: Option<(InterpreterImplementation, u8, u8)>,
    include_pex_compatible: bool,
) -> (names: Vec<(String, Option<VersionSpec>)>)
    requires
        admits_shape(
            admits@.map_values(|row: Vec<bool>| row@),
            spec_versions_for(strategy).len(),
            implementations@.len(),
        ),
    ensures
        name_entries(names@) == spec_binary_names(
            spec_binary_specs(
                implementations@,
                admits@.map_values(|row: Vec<bool>| row@),
                strategy,
                preferred,
                include_pex_compatible,
            ),
        ),
{
    let specs = compatible_binary_specs(implementations, admits, strategy, preferred, include_pex_compatible);
    binary_names(&specs)
}

/// Version specifiers of the `pep440_rs` crate, such as `>=3.9,<3.12`.
#[verifier::external_type_specification]
#[verifier::external_body]
pub struct ExVersionSpecifiers(VersionSpecifiers);

/// One version specifier of the `pep440_rs` crate, such as `>=3.9`: the
/// list of version specifiers dereferences to a slice of them.
#[verifier::external_type_specification]
#[verifier::external_body]
pub struct ExVersionSpecifier(pep440_rs::VersionSpecifier);

/// The error the `pep440_rs` crate gives for text that is not version
/// specifiers.
#[verifier::external_type_specification]
#[verifier::external_body]
pub struct ExVersionSpecifiersParseError(VersionSpecifiersParseError);

/// Whether the `pep440_rs` crate parses `s` as version specifiers.
pub uninterp spec fn pep440_specifiers_accept(s: Seq<char>) -> bool;

/// What the `pep508_rs` crate makes of `s` as a requirement: its normalised
/// name, its normalised extras, whether its marker always holds, and whether
/// it gives no version (0), version specifiers (1) or a URL (2); `None` when
/// the crate refuses it.
pub uninterp spec fn pep508_requirement(s: Seq<char>) -> Option<(Seq<char>, Seq<Seq<char>>, bool, nat)>;

/// What a requirement says of versions.
pub enum RequirementVersion {
    Unversioned,
    Specifiers(VersionSpecifiers),
    Url,
}

/// The kind of what a requirement says of versions: none (0), specifiers
/// (1) or a URL (2).
pub open spec fn version_kind(v: RequirementVersion) -> nat {
    match v {
        RequirementVersion::Unversioned => 0,
        RequirementVersion::Specifiers(_) => 1,
        RequirementVersion::Url => 2,
    }
}

/// A requirement taken apart.
pub struct RequirementParts {
    pub name: String,
    pub extras: Vec<String>,
    pub marker_is_true: bool,
    pub version: RequirementVersion,
}

/// `VersionSpecifiers::from_str` of the `pep440_rs` crate.
#[verifier::external_body]
fn parse_version_specifiers(s: &str) -> (res: Result<VersionSpecifiers, VersionSpecifiersParseError>)
    ensures
        res is Ok <==> pep440_specifiers_accept(s@),
{
    <VersionSpecifiers as std::str::FromStr>::from_str(s)
}

/// `Requirement::<Url>::from_str` of the `pep508_rs` crate (direct URLs read by `Url::parse`), with the name and extras
/// taken as their normalised text, the marker as whether it always holds
/// (`MarkerTree::is_true`) and the version part by its kind. The crate's
/// error (`Pep508Error`, generic over a trait Verus cannot take in a
/// declaration) is given as `None`.
#[verifier::external_body]
pub(crate) fn parse_requirement(s: &str) -> (res: Option<RequirementParts>)
    ensures
        match res {
            Some(p) => pep508_requirement(s@) == Some(
                (p.name@, crate::tags::views(p.extras@), p.marker_is_true, version_kind(p.version)),
            ),
            None => pep508_requirement(s@) is None,
        },
{
    let Ok(r) = <pep508_rs::Requirement<url::Url> as std::str::FromStr>::from_str(s) else {
        return None;
    };
    Some(RequirementParts {
        name: r.name.as_ref().to_string(),
        extras: r.extras.iter().map(|e| e.as_ref().to_string()).collect(),
        marker_is_true: r.marker.is_true(),
        version: match r.version_or_url {
            None => RequirementVersion::Unversioned,
            Some(pep508_rs::VersionOrUrl::VersionSpecifier(v)) => RequirementVersion::Specifiers(v),
            Some(pep508_rs::VersionOrUrl::Url(_)) => RequirementVersion::Url,
        },
    })
}

/// The specifiers `==<major>.<minor>.*` of the `pep440_rs` crate
/// (`VersionSpecifier::equals_star_version`). What they hold is not stated
/// here: the value holds no view.
#[verifier::external_body]
fn release_specifiers(major: u8, minor: u8) -> VersionSpecifiers {
    pep440_rs::VersionSpecifiers::from_iter([pep440_rs::VersionSpecifier::equals_star_version(
        pep440_rs::Version::new([u64::from(major), u64::from(minor)]),
    )])
}

/// Where the version specifiers of a constraint were read from, as plain
/// values: a text of specifiers, the text of a requirement that holds them,
/// or the release `==<major>.<minor>.*` of an interpreter.
#[derive(Clone, Debug, PartialEq, Eq)]
pub enum SpecifiersSource {
    Text(String),
    Requirement(String),
    Release(u8, u8),
}

/// Where version specifiers were read from, as mathematical values.
pub enum SourceText {
    Text(Seq<char>),
    Requirement(Seq<char>),
    Release(u8, u8),
}

impl View for SpecifiersSource {
    type V = SourceText;

    open spec fn view(&self) -> SourceText {
        match self {
            SpecifiersSource::Text(t) => SourceText::Text(t@),
            SpecifiersSource::Requirement(r) => SourceText::Requirement(r@),
            SpecifiersSource::Release(a, b) => SourceText::Release(*a, *b),
        }
    }
}

/// An optional source as a mathematical value.
pub open spec fn source_view(s: Option<SpecifiersSource>) -> Option<SourceText> {
    match s {
        Some(s) => Some(s@),
        None => None,
    }
}

/// Whether the version specifiers the `pep440_rs` crate reads from the text
/// `text` admit the version `<major>.<minor>` (`VersionSpecifiers::contains`).
pub uninterp spec fn pep440_text_contains(text: Seq<char>, major: u8, minor: u8) -> bool;

/// Whether the version specifiers of the requirement the `pep508_rs` crate
/// reads from `requirement` admit the version `<major>.<minor>`
/// (`VersionSpecifiers::contains`).
pub uninterp spec fn pep508_requirement_contains(requirement: Seq<char>, major: u8, minor: u8) -> bool;

/// `VersionSpecifiers::from_str` then `VersionSpecifiers::contains` of the
/// `pep440_rs` crate for the version `<major>.<minor>`; `None` where the
/// crate refuses the text.
#[verifier::external_body]
fn text_specifiers_contain(text: &str, major: u8, minor: u8) -> (res: Option<bool>)
    ensures
        res is Some <==> pep440_specifiers_accept(text@),
        res matches Some(b) ==> b == pep440_text_contains(text@, major, minor),
{
    let specifiers = <VersionSpecifiers as std::str::FromStr>::from_str(text).ok()?;
    Some(specifiers.contains(&pep440_rs::Version::new([u64::from(major), u64::from(minor)])))
}

/// `Requirement::<Url>::from_str` of the `pep508_rs` crate (direct URLs read by `Url::parse`), then
/// `VersionSpecifiers::contains` of its version specifiers for the version
/// `<major>.<minor>`; `None` where the crate refuses the text or the
/// requirement has no version specifiers.
#[verifier::external_body]
fn requirement_specifiers_contain(requirement: &str, major: u8, minor: u8) -> (res: Option<bool>)
    ensures
        res is Some <==> (pep508_requirement(requirement@) matches Some(parts) && parts.3 == 1),
        res matches Some(b) ==> b == pep508_requirement_contains(requirement@, major, minor),
{
    let r = <pep508_rs::Requirement<url::Url> as std::str::FromStr>::from_str(requirement).ok()?;
    match r.version_or_url {
        Some(pep508_rs::VersionOrUrl::VersionSpecifier(s)) => Some(
            s.contains(&pep440_rs::Version::new([u64::from(major), u64::from(minor)])),
        ),
        _ => None,
    }
}

/// `VersionSpecifier::contains` of the `pep440_rs` crate for the specifier
/// `==<a>.<b>.*` and the version `<major>.<minor>`: the release segments of
/// the specifier are compared with the leading ones of the version, so it
/// holds exactly when `<a>.<b>` is `<major>.<minor>`.
#[verifier::external_body]
fn release_specifier_contains(a: u8, b: u8, major: u8, minor: u8) -> (res: bool)
    ensures
        res == (a == major && b == minor),
{
    pep440_rs::VersionSpecifier::equals_star_version(pep440_rs::Version::new([u64::from(a), u64::from(b)]))
        .contains(&pep440_rs::Version::new([u64::from(major), u64::from(minor)]))
}

/// Whether the version specifiers read from `source` admit the version
/// `<major>.<minor>`, as the crates answer; false where they refuse the
/// text.
pub open spec fn source_contains(source: SourceText, major: u8, minor: u8) -> bool {
    match source {
        SourceText::Text(t) => pep440_specifiers_accept(t) && pep440_text_contains(t, major, minor),
        SourceText::Requirement(r) => (pep508_requirement(r) matches Some(parts) && parts.3 == 1)
            && pep508_requirement_contains(r, major, minor),
        SourceText::Release(a, b) => a == major && b == minor,
    }
}

fn source_contains_exec(source: &SpecifiersSource, major: u8, minor: u8) -> (res: bool)
    ensures
        res == source_contains(source@, major, minor),
{
    let answer = match source {
        SpecifiersSource::Text(t) => text_specifiers_contain(t.as_str(), major, minor),
        SpecifiersSource::Requirement(r) => requirement_specifiers_contain(r.as_str(), major, minor),
        SpecifiersSource::Release(a, b) => Some(release_specifier_contains(*a, *b, major, minor)),
    };
    match answer {
        Some(b) => b,
        None => false,
    }
}

/// Where the version specifiers of the constraint `s` are read from: `s`
/// itself when it is a text of specifiers; what follows `CPython+t` or
/// `CPython-t`; or `s` as a requirement with version specifiers.
pub open spec fn spec_constraint_source(s: Seq<char>) -> Option<SourceText> {
    if pep440_specifiers_accept(s) {
        Some(SourceText::Text(s))
    } else if crate::text::has_prefix(s, "CPython+t"@) || crate::text::has_prefix(s, "CPython-t"@) {
        if s.skip(9).len() == 0 {
            None
        } else {
            Some(SourceText::Text(s.skip(9)))
        }
    } else {
        match pep508_requirement(s) {
            Some((_, _, _, kind)) => if kind == 1 {
                Some(SourceText::Requirement(s))
            } else {
                None
            },
            None => None,
        }
    }
}

/// Whether a constraint admits the version `<major>.<minor>`: always without
/// version specifiers; else as the specifiers read from their source answer.
pub open spec fn constraint_admits(c: InterpreterConstraint, major: u8, minor: u8) -> bool {
    match c.specifiers_source {
        None => true,
        Some(s) => source_contains(s@, major, minor),
    }
}

/// Why an interpreter constraint was refused.
#[derive(Copy, Clone, Debug, PartialEq, Eq)]
pub enum ConstraintError {
    /// The version specifiers after `CPython+t` or `CPython-t` are invalid.
    InvalidVersionSpecifiers,
    /// Neither version specifiers nor a requirement.
    InvalidRequirement,
    /// A requirement with an environment marker.
    MarkersNotSupported,
    /// A requirement that names no known implementation.
    InvalidImplementation,
    /// A requirement with a direct reference URL.
    UrlNotSupported,
}

/// An interpreter constraint: an implementation, version specifiers, or
/// both. The specifiers are held as where they are read from: a text of
/// specifiers, a requirement, or a release `==<major>.<minor>.*`.
pub struct InterpreterConstraint {
    pub implementation: Option<InterpreterImplementation>,
    pub specifiers_source: Option<SpecifiersSource>,
}

/// What a constraint `s` asks for: its implementation, whether it has
/// version specifiers, and where they come from. Bare version specifiers
/// (`>=3.9`) ask for any implementation; `CPython+t` and `CPython-t` may be
/// followed by specifiers; else `s` is read as a requirement such as
/// `CPython[gil]==3.12.*`, whose name and extras give the implementation and
/// which may have neither a marker nor a URL.
pub open spec fn spec_parse_constraint(s: Seq<char>) -> Result<(Option<InterpreterImplementation>, bool), ConstraintError> {
    if pep440_specifiers_accept(s) {
        Ok((None, true))
    } else if crate::text::has_prefix(s, "CPython+t"@) || crate::text::has_prefix(s, "CPython-t"@) {
        let implementation = if crate::text::has_prefix(s, "CPython+t"@) {
            InterpreterImplementation::CPythonFreeThreaded
        } else {
            InterpreterImplementation::CPythonGil
        };
        let suffix = s.skip(9);
        if suffix.len() == 0 {
            Ok((Some(implementation), false))
        } else if pep440_specifiers_accept(suffix) {
            Ok((Some(implementation), true))
        } else {
            Err(ConstraintError::InvalidVersionSpecifiers)
        }
    } else {
        match pep508_requirement(s) {
            None => Err(ConstraintError::InvalidRequirement),
            Some((name, extras, marker_is_true, kind)) => if !marker_is_true {
                Err(ConstraintError::MarkersNotSupported)
            } else {
                match spec_implementation_named(name, extras) {
                    None => Err(ConstraintError::InvalidImplementation),
                    Some(i) => if kind == 2 {
                        Err(ConstraintError::UrlNotSupported)
                    } else {
                        Ok((Some(i), kind == 1))
                    },
                }
            },
        }
    }
}

/// The text `Display` gives of the version specifiers the `pep440_rs`
/// crate reads from `text`.
pub uninterp spec fn pep440_specifiers_display(text: Seq<char>) -> Seq<char>;

/// The text `Display` gives of the version specifiers of the requirement
/// the `pep508_rs` crate reads from `requirement`.
pub uninterp spec fn pep508_requirement_specifiers_display(requirement: Seq<char>) -> Seq<char>;

/// `VersionSpecifiers::from_str` of the `pep440_rs` crate, then the text
/// `Display` gives of them; `None` where the crate refuses the text.
#[verifier::external_body]
fn text_specifiers_display(text: &str) -> (res: Option<String>)
    ensures
        res is Some <==> pep440_specifiers_accept(text@),
        res matches Some(t) ==> t@ == pep440_specifiers_display(text@),
{
    let specifiers = <VersionSpecifiers as std::str::FromStr>::from_str(text).ok()?;
    Some(format!("{specifiers}"))
}

/// `Requirement::<Url>::from_str` of the `pep508_rs` crate (direct URLs read by `Url::parse`), then the text
/// `Display` gives of its version specifiers; `None` where the crate
/// refuses the text or the requirement has no version specifiers.
#[verifier::external_body]
fn requirement_specifiers_display(requirement: &str) -> (res: Option<String>)
    ensures
        res is Some <==> (pep508_requirement(requirement@) matches Some(parts) && parts.3 == 1),
        res matches Some(t) ==> t@ == pep508_requirement_specifiers_display(requirement@),
{
    let r = <pep508_rs::Requirement<url::Url> as std::str::FromStr>::from_str(requirement).ok()?;
    match r.version_or_url {
        Some(pep508_rs::VersionOrUrl::VersionSpecifier(s)) => Some(format!("{s}")),
        _ => None,
    }
}

/// The text of the specifier `==<a>.<b>.*`.
pub open spec fn spec_release_text(a: u8, b: u8) -> Seq<char> {
    "=="@ + dec(a as nat) + "."@ + dec(b as nat) + ".*"@
}

/// `Display` of the `pep440_rs` crate's `VersionSpecifiers` made of the one
/// specifier `==<a>.<b>.*`: the operator, the release segments joined by
/// dots, then `.*`.
#[verifier::external_body]
fn release_specifiers_text(a: u8, b: u8) -> (res: String)
    ensures
        res@ == spec_release_text(a, b),
{
    let specifiers = pep440_rs::VersionSpecifiers::from_iter(
        [pep440_rs::VersionSpecifier::equals_star_version(pep440_rs::Version::new([u64::from(a), u64::from(b)]))],
    );
    format!("{specifiers}")
}

/// The text of the version specifiers read from `source`; empty where the
/// crates refuse it.
pub open spec fn source_display(source: SourceText) -> Seq<char> {
    match source {
        SourceText::Text(t) => if pep440_specifiers_accept(t) {
            pep440_specifiers_display(t)
        } else {
            Seq::empty()
        },
        SourceText::Requirement(r) => if pep508_requirement(r) matches Some(parts) && parts.3 == 1 {
            pep508_requirement_specifiers_display(r)
        } else {
            Seq::empty()
        },
        SourceText::Release(a, b) => spec_release_text(a, b),
    }
}

fn source_display_exec(source: &SpecifiersSource) -> (res: String)
    ensures
        res@ == source_display(source@),
{
    let text = match source {
        SpecifiersSource::Text(t) => text_specifiers_display(t.as_str()),
        SpecifiersSource::Requirement(r) => requirement_specifiers_display(r.as_str()),
        SpecifiersSource::Release(a, b) => Some(release_specifiers_text(*a, *b)),
    };
    match text {
        Some(t) => t,
        None => String::new(),
    }
}

/// The name a constraint's implementation is written with.
pub open spec fn spec_implementation_text(i: Option<InterpreterImplementation>) -> Seq<char> {
    match i {
        Some(InterpreterImplementation::CPython) => "CPython"@,
        Some(InterpreterImplementation::CPythonFreeThreaded) => "CPython+t"@,
        Some(InterpreterImplementation::CPythonGil) => "CPython-t"@,
        Some(InterpreterImplementation::PyPy) => "PyPy"@,
        None => Seq::empty(),
    }
}

impl InterpreterConstraint {
    /// The text of the constraint: its implementation's name, then its
    /// version specifiers' text.
    pub fn to_string(&self) -> (s: String)
        ensures
            has_prefix(s@, spec_implementation_text(self.implementation)),
            self.specifiers_source is None ==> s@ == spec_implementation_text(self.implementation),
            self.specifiers_source matches Some(source) ==> s@ == spec_implementation_text(self.implementation)
                + source_display(source@),
    {
        let mut s = String::from_str(
            match self.implementation {
                Some(InterpreterImplementation::CPython) => "CPython",
                Some(InterpreterImplementation::CPythonFreeThreaded) => "CPython+t",
                Some(InterpreterImplementation::CPythonGil) => "CPython-t",
                Some(InterpreterImplementation::PyPy) => "PyPy",
                None => "",
            },
        );
        proof {
            reveal_strlit("CPython");
            reveal_strlit("CPython+t");
            reveal_strlit("CPython-t");
            reveal_strlit("PyPy");
            reveal_strlit("");
        }
        let ghost head = s@;
        assert(head == spec_implementation_text(self.implementation));
        if let Some(source) = &self.specifiers_source {
            let text = source_display_exec(source);
            s.append(text.as_str());
        }
        assert(s@.subrange(0, head.len() as int) =~= head);
        s
    }

    /// Parses an interpreter constraint, as [`spec_parse_constraint`]
    /// describes.
    pub fn parse(constraint: &str) -> (res: Result<InterpreterConstraint, ConstraintError>)
        ensures
            match res {
                Ok(c) => spec_parse_constraint(constraint@) == Ok::<
                    (Option<InterpreterImplementation>, bool),
                    ConstraintError,
                >((c.implementation, c.specifiers_source is Some)) && source_view(c.specifiers_source)
                    == spec_constraint_source(constraint@),
                Err(e) => spec_parse_constraint(constraint@) == Err::<
                    (Option<InterpreterImplementation>, bool),
                    ConstraintError,
                >(e),
            },
    {
        if parse_version_specifiers(constraint).is_ok() {
            return Ok(
                InterpreterConstraint {
                    implementation: None,
                    specifiers_source: Some(SpecifiersSource::Text(String::from_str(constraint))),
                },
            );
        }
        let chars = crate::text::chars_of(constraint);
        proof {
            reveal_strlit("CPython+t");
            reveal_strlit("CPython-t");
        }
        let plus = crate::text::strip_prefix(chars.as_slice(), "CPython+t");
        let minus = crate::text::strip_prefix(chars.as_slice(), "CPython-t");
        let stripped = match plus {
            Some(rest) => Some((InterpreterImplementation::CPythonFreeThreaded, rest)),
            None => match minus {
                Some(rest) => Some((InterpreterImplementation::CPythonGil, rest)),
                None => None,
            },
        };
        if let Some((implementation, suffix)) = stripped {
            if suffix.len() == 0 {
                return Ok(
                    InterpreterConstraint {
                        implementation: Some(implementation),
                        specifiers_source: None,
                    },
                );
            }
            let suffix_text = crate::text::string_of(suffix.as_slice());
            return match parse_version_specifiers(suffix_text.as_str()) {
                Ok(_) => Ok(
                    InterpreterConstraint {
                        implementation: Some(implementation),
                        specifiers_source: Some(SpecifiersSource::Text(suffix_text)),
                    },
                ),
                Err(_) => Err(ConstraintError::InvalidVersionSpecifiers),
            };
        }
        let parts = match parse_requirement(constraint) {
            Some(p) => p,
            None => {
                return Err(ConstraintError::InvalidRequirement);
            },
        };
        if !parts.marker_is_true {
            return Err(ConstraintError::MarkersNotSupported);
        }
        let implementation = match InterpreterImplementation::named(parts.name.as_str(), &parts.extras) {
            Some(i) => i,
            None => {
                return Err(ConstraintError::InvalidImplementation);
            },
        };
        match parts.version {
            RequirementVersion::Unversioned => Ok(
                InterpreterConstraint { implementation: Some(implementation), specifiers_source: None },
            ),
            RequirementVersion::Specifiers(_) => Ok(
                InterpreterConstraint {
                    implementation: Some(implementation),
                    specifiers_source: Some(SpecifiersSource::Requirement(String::from_str(constraint))),
                },
            ),
            RequirementVersion::Url => Err(ConstraintError::UrlNotSupported),
        }
    }

    /// The constraint that selects the interpreter that reported `details`:
    /// its implementation, and its release `==<major>.<minor>.*`, the
    /// precision at which constraints select interpreters.
    pub fn exact_version(details: &InterpreterDetails) -> (c: InterpreterConstraint)
        ensures
            c.implementation == Some(
                spec_kind_of(
                    crate::interpreter::spec_python_implementation(
                        details.version,
                        details.pypy_version,
                        details.cpython_abi_info,
                    ),
                ),
            ),
            c.specifiers_source == Some(SpecifiersSource::Release(details.version.major, details.version.minor)),
    {
        InterpreterConstraint {
            implementation: InterpreterImplementation::of(details),
            specifiers_source: Some(SpecifiersSource::Release(details.version.major, details.version.minor)),
        }
    }

    /// Whether the constraint admits the version `<major>.<minor>`: always
    /// without version specifiers; else as the specifiers decide, read from
    /// where they came from ([`constraint_admits`]).
    pub fn contains_version(&self, major: u8, minor: u8) -> (res: bool)
        ensures
            res == constraint_admits(*self, major, minor),
    {
        match &self.specifiers_source {
            None => true,
            Some(source) => source_contains_exec(source, major, minor),
        }
    }

    /// The constraint's version specifiers, as the crates read them from
    /// where they came from; `None` without specifiers.
    pub fn version_specifiers(&self) -> (v: Option<VersionSpecifiers>)
        ensures
            self.specifiers_source is None ==> v is None,
            self.specifiers_source matches Some(SpecifiersSource::Release(_, _)) ==> v is Some,
            self.specifiers_source matches Some(SpecifiersSource::Text(t)) ==> (v is Some
                <==> pep440_specifiers_accept(t@)),
            self.specifiers_source matches Some(SpecifiersSource::Requirement(r)) ==> (v is Some <==> (pep508_requirement(
                r@,
            ) matches Some(parts) && parts.3 == 1)),
    {
        match &self.specifiers_source {
            None => None,
            Some(SpecifiersSource::Release(a, b)) => Some(release_specifiers(*a, *b)),
            Some(SpecifiersSource::Text(t)) => match parse_version_specifiers(t.as_str()) {
                Ok(v) => Some(v),
                Err(_) => None,
            },
            Some(SpecifiersSource::Requirement(r)) => match parse_requirement(r.as_str()) {
                Some(parts) => match parts.version {
                    RequirementVersion::Specifiers(v) => Some(v),
                    _ => None,
                },
                None => None,
            },
        }
    }

    /// Whether the constraint admits an implementation: never when it asks
    /// for an implementation that does not match; else as its versions
    /// decide ([`constraint_contains`]).
    pub fn contains(&self, python_implementation: PythonImplementation) -> (res: bool)
        ensures
            res == constraint_contains(*self, python_implementation),
    {
        if let Some(implementation) = self.implementation {
            if !implementation.matches(InterpreterImplementation::of_implementation(python_implementation)) {
                return false;
            }
        }
        let version = python_implementation.version();
        self.contains_version(version.major, version.minor)
    }
}

/// Whether a constraint admits an implementation: the implementation it
/// asks for, if any, matches, and its version specifiers admit the
/// implementation's `<major>.<minor>`.
pub open spec fn constraint_contains(c: InterpreterConstraint, p: PythonImplementation) -> bool {
    &&& (c.implementation matches Some(i) ==> spec_matches(i, spec_kind_of(p)))
    &&& constraint_admits(c, p.spec_version().major, p.spec_version().minor)
}

/// The constraint [`InterpreterConstraint::exact_version`] gives for an
/// interpreter contains that interpreter, and admits no other
/// `<major>.<minor>`.
pub proof fn law_exact_version_contains_its_interpreter(details: InterpreterDetails, c: InterpreterConstraint)
    requires
        c.implementation == Some(
            spec_kind_of(
                crate::interpreter::spec_python_implementation(
                    details.version,
                    details.pypy_version,
                    details.cpython_abi_info,
                ),
            ),
        ),
        c.specifiers_source == Some(SpecifiersSource::Release(details.version.major, details.version.minor)),
    ensures
        constraint_contains(
            c,
            crate::interpreter::spec_python_implementation(
                details.version,
                details.pypy_version,
                details.cpython_abi_info,
            ),
        ),
        forall|major: u8, minor: u8|
            #[trigger] constraint_admits(c, major, minor) <==> (major == details.version.major && minor
                == details.version.minor),
{
}

/// Interpreter constraints: an interpreter must satisfy one of them; with
/// none, any interpreter will do.
pub struct InterpreterConstraints(pub Vec<InterpreterConstraint>);

/// The implementations of constraints.
pub open spec fn implementations_of(constraints: Seq<InterpreterConstraint>) -> Seq<Option<InterpreterImplementation>> {
    constraints.map_values(|c: InterpreterConstraint| c.implementation)
}

impl InterpreterConstraints {
    /// Parses each constraint; the first refused one gives the error.
    pub fn try_from(constraints: &[&str]) -> (res: Result<InterpreterConstraints, ConstraintError>)
        ensures
            match res {
                Ok(ics) => ics.0@.len() == constraints@.len() && (forall|i: int|
                    0 <= i < constraints@.len() ==> spec_parse_constraint(#[trigger] constraints@[i]@) == Ok::<
                        (Option<InterpreterImplementation>, bool),
                        ConstraintError,
                    >((ics.0@[i].implementation, ics.0@[i].specifiers_source is Some))) && (forall|i: int|
                    0 <= i < constraints@.len() ==> source_view(ics.0@[i].specifiers_source) == spec_constraint_source(
                        #[trigger] constraints@[i]@,
                    )),
                Err(e) => exists|i: int|
                    0 <= i < constraints@.len() && spec_parse_constraint(#[trigger] constraints@[i]@) == Err::<
                        (Option<InterpreterImplementation>, bool),
                        ConstraintError,
                    >(e) && forall|j: int| 0 <= j < i ==> spec_parse_constraint(#[trigger] constraints@[j]@) is Ok,
            },
    {
        let mut parsed: Vec<InterpreterConstraint> = Vec::new();
        let mut i: usize = 0;
        while i < constraints.len()
            invariant
                i <= constraints@.len(),
                parsed@.len() == i,
                forall|k: int|
                    0 <= k < i ==> spec_parse_constraint(#[trigger] constraints@[k]@) == Ok::<
                        (Option<InterpreterImplementation>, bool),
                        ConstraintError,
                    >((parsed@[k].implementation, parsed@[k].specifiers_source is Some)),
                forall|k: int|
                    0 <= k < i ==> source_view(parsed@[k].specifiers_source) == spec_constraint_source(
                        #[trigger] constraints@[k]@,
                    ),
            decreases constraints.len() - i,
        {
            match InterpreterConstraint::parse(constraints[i]) {
                Ok(c) => {
                    parsed.push(c);
                },
                Err(e) => {
                    return Err(e);
                },
            }
            i = i + 1;
        }
        Ok(InterpreterConstraints(parsed))
    }

    /// Whether there are no constraints.
    pub fn is_empty(&self) -> (res: bool)
        ensures
            res == (self.0@.len() == 0),
    {
        self.0.len() == 0
    }

    /// Whether an implementation satisfies the constraints: there are none,
    /// or it satisfies one of them.
    pub fn contains(&self, python_implementation: PythonImplementation) -> (res: bool)
        ensures
            res == (self.0@.len() == 0 || exists|i: int|
                0 <= i < self.0@.len() && constraint_contains(#[trigger] self.0@[i], python_implementation)),
    {
        if self.0.len() == 0 {
            return true;
        }
        let mut i: usize = 0;
        while i < self.0.len()
            invariant
                i <= self.0@.len(),
                self.0@.len() > 0,
                forall|k: int|
                    0 <= k < i ==> !constraint_contains(
                        #[trigger] self.0@[k],
                        python_implementation,
                    ),
            decreases self.0.len() - i,
        {
            if self.0[i].contains(python_implementation) {
                return true;
            }
            i = i + 1;
        }
        false
    }

    /// Whether the version `<major>.<minor>` satisfies the constraints: there
    /// are none, or one of them admits it.
    pub fn contains_version(&self, major: u8, minor: u8) -> (res: bool)
        ensures
            res == (self.0@.len() == 0 || exists|i: int|
                0 <= i < self.0@.len() && constraint_admits(#[trigger] self.0@[i], major, minor)),
    {
        if self.0.len() == 0 {
            return true;
        }
        let mut i: usize = 0;
        while i < self.0.len()
            invariant
                i <= self.0@.len(),
                forall|k: int| 0 <= k < i ==> !constraint_admits(#[trigger] self.0@[k], major, minor),
            decreases self.0.len() - i,
        {
            if self.0[i].contains_version(major, minor) {
                return true;
            }
            i = i + 1;
        }
        false
    }
}

/// Whether `specs` are the Python binaries to look for for the constraints
/// `cs`, as [`spec_binary_specs`] lists them for a table `admits` of which
/// version (in the order of the strategy) each constraint admits and the
/// preferred interpreter's implementation and version if it is looked for:
/// each constraint admits a version as [`constraint_admits`] says, and the
/// preferred interpreter is looked for when the constraints contain it.
pub open spec fn binary_specs_of(
    cs: Seq<InterpreterConstraint>,
    strategy: SelectionStrategy,
    preferred_interpreter: Option<PythonImplementation>,
    include_pex_compatible: bool,
    specs: Seq<PythonBinarySpec>,
) -> bool {
    exists|admits: Seq<Seq<bool>>, preferred: Option<(InterpreterImplementation, u8, u8)>|
        #![trigger spec_binary_specs(implementations_of(cs), admits, strategy, preferred, include_pex_compatible)]
        {
            &&& admits_shape(admits, spec_versions_for(strategy).len(), cs.len())
            &&& forall|v: int, c: int|
                0 <= v < admits.len() && 0 <= c < cs.len() ==> #[trigger] admits[v][c]
                    == constraint_admits(cs[c], spec_versions_for(strategy)[v].0, spec_versions_for(strategy)[v].1)
            &&& match preferred {
                Some((i, major, minor)) => preferred_interpreter matches Some(pv) && i == spec_kind_of(pv) && major
                    == pv.spec_version().major && minor == pv.spec_version().minor,
                None => true,
            }
            &&& (preferred is Some <==> (preferred_interpreter matches Some(pv) && (cs.len() == 0 || exists|c: int|
                0 <= c < cs.len() && constraint_contains(#[trigger] cs[c], pv))))
            &&& specs == spec_binary_specs(implementations_of(cs), admits, strategy, preferred, include_pex_compatible)
        }
}

/// The Python binaries to look for to satisfy the constraints, as
/// [`spec_binary_specs`] lists them. Which versions the version specifiers
/// admit is up to the `pep440_rs` crate; a constraint without specifiers
/// admits every version.
pub fn calculate_compatible_binary_specs(
    constraints: &InterpreterConstraints,
    selection_strategy: SelectionStrategy,
    preferred_interpreter: Option<PythonImplementation>,
    include_pex_compatible: bool,
) -> (specs: Vec<PythonBinarySpec>)
    ensures
        binary_specs_of(constraints.0@, selection_strategy, preferred_interpreter, include_pex_compatible, specs@),
{
    let preferred = match preferred_interpreter {
        Some(pv) => if constraints.contains(pv) {
            let v = pv.version();
            Some((InterpreterImplementation::of_implementation(pv), v.major, v.minor))
        } else {
            None
        },
        None => None,
    };
    let versions = match selection_strategy {
        SelectionStrategy::Oldest => supported_versions(),
        SelectionStrategy::Newest => supported_versions_newest_first(),
    };
    let mut implementations: Vec<Option<InterpreterImplementation>> = Vec::new();
    let mut c: usize = 0;
    while c < constraints.0.len()
        invariant
            c <= constraints.0@.len(),
            implementations@ == implementations_of(constraints.0@).take(c as int),
        decreases constraints.0.len() - c,
    {
        implementations.push(constraints.0[c].implementation);
        assert(implementations_of(constraints.0@).take(c + 1) =~= implementations_of(constraints.0@).take(
            c as int,
        ).push(constraints.0@[c as int].implementation));
        c = c + 1;
    }
    assert(implementations_of(constraints.0@).take(constraints.0@.len() as int) =~= implementations_of(
        constraints.0@,
    ));
    let mut admits: Vec<Vec<bool>> = Vec::new();
    let mut v: usize = 0;
    while v < versions.len()
        invariant
            v <= versions@.len(),
            versions@ == spec_versions_for(selection_strategy),
            implementations@.len() == constraints.0@.len(),
            admits@.len() == v,
            forall|k: int| 0 <= k < v ==> (#[trigger] admits@[k])@.len() == constraints.0@.len(),
            forall|k: int, j: int|
                0 <= k < v && 0 <= j < constraints.0@.len() ==> #[trigger] admits@[k]@[j]
                    == constraint_admits(constraints.0@[j], versions@[k].0, versions@[k].1),
        decreases versions.len() - v,
    {
        let (major, minor) = versions[v];
        let mut row: Vec<bool> = Vec::new();
        let mut j: usize = 0;
        while j < constraints.0.len()
            invariant
                j <= constraints.0@.len(),
                row@.len() == j,
                versions@ == spec_versions_for(selection_strategy),
                v < versions@.len(),
                (major, minor) == versions@[v as int],
                forall|k: int|
                    0 <= k < j ==> #[trigger] row@[k] == constraint_admits(
                        constraints.0@[k],
                        major,
                        minor,
                    ),
            decreases constraints.0.len() - j,
        {
            row.push(constraints.0[j].contains_version(major, minor));
            j = j + 1;
        }
        admits.push(row);
        v = v + 1;
    }
    let ghost table = admits@.map_values(|row: Vec<bool>| row@);
    assert(admits_shape(table, spec_versions_for(selection_strategy).len(), implementations@.len()));
    let specs = compatible_binary_specs(
        &implementations,
        &admits,
        selection_strategy,
        preferred,
        include_pex_compatible,
    );
    specs
}

/// The Python binary names to look for on Unix to satisfy the constraints,
/// as [`spec_binary_names`] lists them for the binaries of
/// [`calculate_compatible_binary_specs`].
pub fn calculate_compatible_binary_names(
    constraints: &InterpreterConstraints,
    selection_strategy: SelectionStrategy,
    preferred_interpreter: Option<PythonImplementation>,
    include_pex_compatible: bool,
) -> (names: Vec<(String, Option<VersionSpec>)>)
    ensures
        exists|specs: Seq<PythonBinarySpec>|
            #[trigger] binary_specs_of(
                constraints.0@,
                selection_strategy,
                preferred_interpreter,
                include_pex_compatible,
                specs,
            ) && name_entries(names@) == spec_binary_names(specs),
{
    let specs = calculate_compatible_binary_specs(
        constraints,
        selection_strategy,
        preferred_interpreter,
        include_pex_compatible,
    );
    binary_names(&specs)
}

/// Every implementation satisfies a constraint asking for itself, and any
/// CPython satisfies one asking for CPython.
pub proof fn law_matches_reflexive(i: InterpreterImplementation)
    ensures
        spec_matches(i, i),
        i != InterpreterImplementation::PyPy ==> spec_matches(InterpreterImplementation::CPython, i),
{
}

/// Threading is honoured: a constraint asking for free-threaded CPython
/// admits only CPython builds that report free threading; one asking for
/// CPython with the GIL admits no free-threaded build and no PyPy; one asking
/// for PyPy admits only PyPy. No implementation satisfies both a
/// free-threaded and a GIL constraint, whatever satisfies a CPython
/// constraint of either threading satisfies a plain `CPython` one, and PyPy
/// satisfies only a PyPy constraint.
pub proof fn law_threading_constraints_exclusive(c: InterpreterConstraint, p: PythonImplementation)
    ensures
        c.implementation == Some(InterpreterImplementation::CPythonFreeThreaded) && constraint_contains(c, p) ==> (
        p matches PythonImplementation::CPython(ci) && ci.abi_info.free_threaded == Some(true)),
        c.implementation == Some(InterpreterImplementation::CPythonGil) && constraint_contains(c, p) ==> (
        p matches PythonImplementation::CPython(ci) && ci.abi_info.free_threaded != Some(true)),
        c.implementation == Some(InterpreterImplementation::PyPy) && constraint_contains(c, p) ==> p is PyPy,
        forall|o: InterpreterImplementation|
            !(#[trigger] spec_matches(InterpreterImplementation::CPythonFreeThreaded, o) && spec_matches(
                InterpreterImplementation::CPythonGil,
                o,
            )),
        forall|w: InterpreterImplementation, o: InterpreterImplementation|
            #[trigger] spec_matches(w, o) && w != InterpreterImplementation::PyPy ==> spec_matches(
                InterpreterImplementation::CPython,
                o,
            ),
        forall|w: InterpreterImplementation|
            #[trigger] spec_matches(w, InterpreterImplementation::PyPy) <==> w == InterpreterImplementation::PyPy,
{
}

proof fn lemma_set_insert_distinct(s: Seq<PythonBinarySpec>, x: PythonBinarySpec)
    requires
        s.no_duplicates(),
    ensures
        set_insert(s, x).no_duplicates(),
        s.to_set().insert(x) == set_insert(s, x).to_set(),
{
    if !s.contains(x) {
        let t = s.push(x);
        assert forall|i: int, j: int| 0 <= i < t.len() && 0 <= j < t.len() && i != j implies t[i] != t[j] by {
            if i == s.len() as int {
                assert(s[j] == t[j]);
            } else if j == s.len() as int {
                assert(s[i] == t[i]);
            }
        }
        assert(s.to_set().insert(x) =~= t.to_set()) by {
            assert forall|y: PythonBinarySpec| t.to_set().contains(y) implies s.to_set().insert(x).contains(y) by {
                let k = choose|k: int| 0 <= k < t.len() && t[k] == y;
                if k < s.len() {
                    assert(s[k] == y);
                }
            }
            assert forall|y: PythonBinarySpec| s.to_set().insert(x).contains(y) implies t.to_set().contains(y) by {
                if y == x {
                    assert(t[s.len() as int] == x);
                } else {
                    let k = choose|k: int| 0 <= k < s.len() && s[k] == y;
                    assert(t[k] == y);
                }
            }
        }
    } else {
        assert(s.to_set().insert(x) =~= s.to_set());
    }
}

proof fn lemma_insert_specs_distinct(
    s: Seq<PythonBinarySpec>,
    implementation: Option<InterpreterImplementation>,
    major: u8,
    minor: u8,
)
    requires
        s.no_duplicates(),
    ensures
        spec_insert_specs(s, implementation, major, minor).no_duplicates(),
{
    let python = PythonBinarySpec { name: BinaryName::Python, major, minor, free_threaded: false };
    let python_t = PythonBinarySpec { name: BinaryName::Python, major, minor, free_threaded: true };
    let pypy = PythonBinarySpec { name: BinaryName::PyPy, major, minor, free_threaded: false };
    lemma_set_insert_distinct(s, python);
    lemma_set_insert_distinct(s, python_t);
    lemma_set_insert_distinct(s, pypy);
    let s1 = set_insert(s, python);
    lemma_set_insert_distinct(s1, python_t);
    lemma_set_insert_distinct(s1, pypy);
    let s2 = set_insert(s1, python_t);
    lemma_set_insert_distinct(s2, pypy);
}

proof fn lemma_insert_version_distinct(
    s: Seq<PythonBinarySpec>,
    implementations: Seq<Option<InterpreterImplementation>>,
    admits: Seq<bool>,
    version: (u8, u8),
    generic: bool,
    n: nat,
)
    requires
        s.no_duplicates(),
        n <= implementations.len(),
    ensures
        spec_insert_version(s, implementations, admits, version, generic, n).no_duplicates(),
    decreases n,
{
    if generic {
        lemma_insert_specs_distinct(s, None, version.0, version.1);
    } else if n > 0 {
        lemma_insert_version_distinct(s, implementations, admits, version, generic, (n - 1) as nat);
        let before = spec_insert_version(s, implementations, admits, version, generic, (n - 1) as nat);
        lemma_insert_specs_distinct(before, implementations[n - 1], version.0, version.1);
    }
}

proof fn lemma_insert_versions_distinct(
    s: Seq<PythonBinarySpec>,
    implementations: Seq<Option<InterpreterImplementation>>,
    admits: Seq<Seq<bool>>,
    versions: Seq<(u8, u8)>,
    generic: bool,
    n: nat,
)
    requires
        s.no_duplicates(),
    ensures
        spec_insert_versions(s, implementations, admits, versions, generic, n).no_duplicates(),
    decreases n,
{
    if n > 0 {
        lemma_insert_versions_distinct(s, implementations, admits, versions, generic, (n - 1) as nat);
        let before = spec_insert_versions(s, implementations, admits, versions, generic, (n - 1) as nat);
        lemma_insert_version_distinct(
            before,
            implementations,
            admits[n - 1],
            versions[n - 1],
            generic,
            implementations.len(),
        );
    }
}

proof fn lemma_insert_generic_distinct(s: Seq<PythonBinarySpec>, versions: Seq<(u8, u8)>, n: nat)
    requires
        s.no_duplicates(),
    ensures
        spec_insert_generic(s, versions, n).no_duplicates(),
    decreases n,
{
    if n > 0 {
        lemma_insert_generic_distinct(s, versions, (n - 1) as nat);
        lemma_insert_specs_distinct(
            spec_insert_generic(s, versions, (n - 1) as nat),
            None,
            versions[n - 1].0,
            versions[n - 1].1,
        );
    }
}

/// The binaries to look for are each listed once.
pub proof fn law_binary_specs_distinct(
    implementations: Seq<Option<InterpreterImplementation>>,
    admits: Seq<Seq<bool>>,
    strategy: SelectionStrategy,
    preferred: Option<(InterpreterImplementation, u8, u8)>,
    include_pex_compatible: bool,
)
    ensures
        spec_binary_specs(implementations, admits, strategy, preferred, include_pex_compatible).no_duplicates(),
{
    let empty = Seq::<PythonBinarySpec>::empty();
    let s0 = match preferred {
        Some((i, major, minor)) => {
            lemma_insert_specs_distinct(empty, Some(i), major, minor);
            spec_insert_specs(empty, Some(i), major, minor)
        },
        None => empty,
    };
    let versions = spec_versions_for(strategy);
    let generic = implementations.len() == 0 && !include_pex_compatible;
    lemma_insert_versions_distinct(s0, implementations, admits, versions, generic, versions.len());
    let s1 = spec_insert_versions(s0, implementations, admits, versions, generic, versions.len());
    lemma_insert_generic_distinct(s1, spec_supported_versions_newest_first(), spec_supported_versions().len());
}

/// Whether the keys of `m` are distinct.
pub open spec fn keys_distinct(m: Seq<(Seq<char>, Option<VersionSpec>)>) -> bool {
    forall|i: int, j: int| 0 <= i < m.len() && 0 <= j < m.len() && i != j ==> m[i].0 != m[j].0
}

proof fn lemma_map_insert_distinct(m: Seq<(Seq<char>, Option<VersionSpec>)>, k: Seq<char>, v: Option<VersionSpec>)
    requires
        keys_distinct(m),
    ensures
        keys_distinct(map_insert(m, k, v)),
        map_insert(m, k, v).len() >= m.len(),
{
    lemma_key_index(m, k);
    match key_index(m, k) {
        Some(x) => {
            let t = m.update(x as int, (k, v));
            assert forall|i: int, j: int| 0 <= i < t.len() && 0 <= j < t.len() && i != j implies t[i].0 != t[j].0 by {
                if i == x as int {
                    assert(m[i].0 == k);
                } else if j == x as int {
                    assert(m[j].0 == k);
                }
            }
        },
        None => {
            let t = m.push((k, v));
            assert forall|i: int, j: int| 0 <= i < t.len() && 0 <= j < t.len() && i != j implies t[i].0 != t[j].0 by {
                if i < m.len() && j < m.len() {
                    assert(t[i] == m[i] && t[j] == m[j]);
                } else if i < m.len() {
                    assert(t[i] == m[i]);
                } else if j < m.len() {
                    assert(t[j] == m[j]);
                }
            }
        },
    }
}

proof fn lemma_names_pass_distinct(
    m: Seq<(Seq<char>, Option<VersionSpec>)>,
    specs: Seq<PythonBinarySpec>,
    pass: nat,
    n: nat,
)
    requires
        keys_distinct(m),
    ensures
        keys_distinct(spec_names_pass(m, specs, pass, n)),
    decreases n,
{
    if n > 0 {
        lemma_names_pass_distinct(m, specs, pass, (n - 1) as nat);
        lemma_map_insert_distinct(
            spec_names_pass(m, specs, pass, (n - 1) as nat),
            spec_pass_name(specs[n - 1], pass),
            spec_pass_version(specs[n - 1], pass),
        );
    }
}

/// The binary names to look for are each listed once.
pub proof fn law_binary_names_distinct(specs: Seq<PythonBinarySpec>)
    ensures
        keys_distinct(spec_binary_names(specs)),
{
    let empty = Seq::<(Seq<char>, Option<VersionSpec>)>::empty();
    lemma_names_pass_distinct(empty, specs, 0, specs.len());
    let m0 = spec_names_pass(empty, specs, 0, specs.len());
    lemma_names_pass_distinct(m0, specs, 1, specs.len());
    let m1 = spec_names_pass(m0, specs, 1, specs.len());
    lemma_names_pass_distinct(m1, specs, 2, specs.len());
}

} // verus!
