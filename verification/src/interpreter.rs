//! Python interpreters: what an interpreter reports of itself, and the
//! decisions made from it.

use vstd::prelude::*;
use vstd::string::StringExecFns;

use crate::platform_details::PlatformDetails;
use crate::text::{dec, push_decimal};
use crate::version::{
    CPythonAbiInfo, CPythonImplementation, PyPyImplementation, PyPyVersion, PythonImplementation,
    PythonVersion,
};

verus! {

/// What an interpreter reports of itself: its path, its prefix and base
/// prefix, its version, its PyPy release (PyPy only), its CPython ABI
/// (CPython only), its `sysconfig` paths by name, and whether it has
/// `ensurepip`.
pub struct InterpreterDetails {
    pub path: String,
    pub prefix: String,
    pub base_prefix: Option<String>,
    pub version: PythonVersion,
    pub pypy_version: Option<PyPyVersion>,
    pub cpython_abi_info: Option<CPythonAbiInfo>,
    pub paths: Vec<(String, String)>,
    pub has_ensurepip: bool,
}

/// The implementation that details describe: CPython when they carry an
/// ABI, else PyPy.
pub open spec fn spec_python_implementation(
    version: PythonVersion,
    pypy_version: Option<PyPyVersion>,
    cpython_abi_info: Option<CPythonAbiInfo>,
) -> PythonImplementation {
    match cpython_abi_info {
        Some(abi_info) => PythonImplementation::CPython(CPythonImplementation { version, abi_info }),
        None => PythonImplementation::PyPy(PyPyImplementation { version, pypy_version }),
    }
}

/// The value of the `sysconfig` path named `name`: the first entry with that
/// name.
pub open spec fn spec_lookup(paths: Seq<(String, String)>, name: Seq<char>) -> Option<Seq<char>>
    decreases paths.len(),
{
    if paths.len() == 0 {
        None
    } else if paths[0].0@ == name {
        Some(paths[0].1@)
    } else {
        spec_lookup(paths.drop_first(), name)
    }
}

impl InterpreterDetails {
    /// The implementation the interpreter is.
    pub fn python_implementation(&self) -> (pv: PythonImplementation)
        ensures
            pv == spec_python_implementation(self.version, self.pypy_version, self.cpython_abi_info),
    {
        if let Some(abi_info) = self.cpython_abi_info {
            PythonImplementation::CPython(CPythonImplementation { version: self.version, abi_info })
        } else {
            PythonImplementation::PyPy(PyPyImplementation { version: self.version, pypy_version: self.pypy_version })
        }
    }

    /// The `sysconfig` path named `name`.
    pub fn sysconfig_path(&self, name: &str) -> (res: Option<&str>)
        ensures
            match res {
                Some(p) => spec_lookup(self.paths@, name@) == Some(p@),
                None => spec_lookup(self.paths@, name@) is None,
            },
    {
        let mut i: usize = 0;
        let target = String::from_str(name);
        assert(self.paths@.skip(0) =~= self.paths@);
        while i < self.paths.len()
            invariant
                i <= self.paths@.len(),
                target@ == name@,
                spec_lookup(self.paths@, name@) == spec_lookup(self.paths@.skip(i as int), name@),
            decreases self.paths.len() - i,
        {
            assert(self.paths@.skip(i as int)[0] == self.paths@[i as int]);
            assert(self.paths@.skip(i as int).drop_first() =~= self.paths@.skip(i + 1));
            if self.paths[i].0 == target {
                return Some(self.paths[i].1.as_str());
            }
            i = i + 1;
        }
        None
    }
}

/// A Python interpreter: its real path, its details and its platform
/// details.
pub struct Interpreter {
    pub realpath: String,
    pub details: InterpreterDetails,
    pub platform_details: PlatformDetails,
}

/// The binary name stem of an implementation: `pypy` for PyPy, else
/// `python`.
pub open spec fn exe_stem(is_pypy: bool) -> Seq<char> {
    if is_pypy {
        "pypy"@
    } else {
        "python"@
    }
}

/// The most specific binary name of an interpreter: `<stem><major>.<minor>`.
pub open spec fn spec_most_specific_exe_name(version: PythonVersion, is_pypy: bool) -> Seq<char> {
    exe_stem(is_pypy) + dec(version.major as nat) + "."@ + dec(version.minor as nat)
}

/// Where an interpreter of the version may be found below a prefix, most
/// specific first: `bin/pypy<major>.<minor>`, `bin/pypy<major>` and
/// `bin/pypy` for PyPy, then `bin/python<major>.<minor>`,
/// `bin/python<major>` and `bin/python`.
pub open spec fn spec_candidate_rel_paths(version: PythonVersion, is_pypy: bool) -> Seq<Seq<char>> {
    let major = dec(version.major as nat);
    let minor = dec(version.minor as nat);
    let python = seq![
        "bin/python"@ + major + "."@ + minor,
        "bin/python"@ + major,
        "bin/python"@,
    ];
    if is_pypy {
        seq!["bin/pypy"@ + major + "."@ + minor, "bin/pypy"@ + major, "bin/pypy"@] + python
    } else {
        python
    }
}

/// The arguments that run an interpreter in isolation from the user's
/// environment: `-I` from Python 3.4 on, else `-sE`.
pub open spec fn spec_hermetic_args(version: PythonVersion) -> Seq<char> {
    if version.major == 3 && version.minor >= 4 {
        "-I"@
    } else {
        "-sE"@
    }
}

/// Whether the PyPy release an interpreter reports is the one wanted: both
/// absent, or both present and equal.
pub open spec fn spec_pypy_version_matches(wanted: Option<PyPyVersion>, actual: Option<PyPyVersion>) -> bool {
    match (wanted, actual) {
        (Some(w), Some(a)) => w == a,
        (None, None) => true,
        _ => false,
    }
}

/// What to make of an interpreter found while looking for a version below a
/// prefix.
#[derive(Copy, Clone, Debug, PartialEq, Eq)]
pub enum CandidateVerdict {
    /// It is the interpreter looked for.
    Accept,
    /// Its cached details may be stale: reload them and look again.
    Recheck,
    /// It is not the interpreter looked for.
    Skip,
}

/// The verdict on an interpreter of version `found` and PyPy release
/// `found_pypy`, when version `wanted` and PyPy release `wanted_pypy` are
/// looked for: accepted when the versions are equal and the PyPy releases
/// match; rechecked when only the micro version or later parts differ and
/// rechecks are asked for; else skipped.
pub open spec fn spec_candidate_verdict(
    found: PythonVersion,
    found_pypy: Option<PyPyVersion>,
    wanted: PythonVersion,
    wanted_pypy: Option<PyPyVersion>,
    recheck_mismatch: bool,
) -> CandidateVerdict {
    if found != wanted {
        if recheck_mismatch && found.major == wanted.major && found.minor == wanted.minor {
            CandidateVerdict::Recheck
        } else {
            CandidateVerdict::Skip
        }
    } else if spec_pypy_version_matches(wanted_pypy, found_pypy) {
        CandidateVerdict::Accept
    } else {
        CandidateVerdict::Skip
    }
}

/// Whether the PyPy release an interpreter reports is the one wanted.
pub fn pypy_version_matches(wanted: Option<PyPyVersion>, actual: Option<PyPyVersion>) -> (res: bool)
    ensures
        res == spec_pypy_version_matches(wanted, actual),
{
    match (wanted, actual) {
        (Some(w), Some(a)) => w.0 == a.0 && w.1 == a.1 && w.2 == a.2,
        (None, None) => true,
        _ => false,
    }
}

fn same_version(a: &PythonVersion, b: &PythonVersion) -> (res: bool)
    ensures
        res == (*a == *b),
{
    a.major == b.major && a.minor == b.minor && a.micro == b.micro && a.releaselevel == b.releaselevel
        && a.serial == b.serial
}

/// The verdict on an interpreter found while looking for a version, as
/// [`spec_candidate_verdict`] gives it.
pub fn candidate_verdict(
    found: PythonVersion,
    found_pypy: Option<PyPyVersion>,
    wanted: PythonVersion,
    wanted_pypy: Option<PyPyVersion>,
    recheck_mismatch: bool,
) -> (v: CandidateVerdict)
    ensures
        v == spec_candidate_verdict(found, found_pypy, wanted, wanted_pypy, recheck_mismatch),
{
    if !same_version(&found, &wanted) {
        if recheck_mismatch && found.major == wanted.major && found.minor == wanted.minor {
            CandidateVerdict::Recheck
        } else {
            CandidateVerdict::Skip
        }
    } else if pypy_version_matches(wanted_pypy, found_pypy) {
        CandidateVerdict::Accept
    } else {
        CandidateVerdict::Skip
    }
}

/// `<prefix><major>[.<minor>]`.
fn versioned(prefix: &str, version: &PythonVersion, with_minor: bool) -> (s: String)
    ensures
        s@ == prefix@ + dec(version.major as nat) + if with_minor {
            "."@ + dec(version.minor as nat)
        } else {
            Seq::<char>::empty()
        },
{
    let mut s = String::from_str(prefix);
    push_decimal(&mut s, version.major as u64);
    if with_minor {
        let ghost base = s@;
        s.append(".");
        push_decimal(&mut s, version.minor as u64);
        proof {
            vstd::seq_lib::lemma_concat_associative(base, "."@, dec(version.minor as nat));
        }
    }
    s
}

/// Where an interpreter of the version may be found below a prefix, as
/// [`spec_candidate_rel_paths`] lists them.
pub fn candidate_rel_paths(version: &PythonVersion, is_pypy: bool) -> (paths: Vec<String>)
    ensures
        crate::tags::views(paths@) == spec_candidate_rel_paths(*version, is_pypy),
{
    let mut paths: Vec<String> = Vec::new();
    if is_pypy {
        paths.push(versioned("bin/pypy", version, true));
        paths.push(versioned("bin/pypy", version, false));
        paths.push(String::from_str("bin/pypy"));
    }
    paths.push(versioned("bin/python", version, true));
    paths.push(versioned("bin/python", version, false));
    paths.push(String::from_str("bin/python"));
    let ghost major = dec(version.major as nat);
    proof {
        assert(("bin/python"@ + major + Seq::<char>::empty()) =~= "bin/python"@ + major);
        assert(("bin/pypy"@ + major + Seq::<char>::empty()) =~= "bin/pypy"@ + major);
        vstd::seq_lib::lemma_concat_associative("bin/python"@ + major, "."@, dec(version.minor as nat));
        vstd::seq_lib::lemma_concat_associative("bin/pypy"@ + major, "."@, dec(version.minor as nat));
    }
    assert(crate::tags::views(paths@) =~= spec_candidate_rel_paths(*version, is_pypy));
    paths
}

impl Interpreter {
    /// The most specific binary name of the interpreter, e.g. `python3.14`.
    pub fn most_specific_exe_name(&self) -> (s: String)
        ensures
            s@ == spec_most_specific_exe_name(self.details.version, self.details.pypy_version is Some),
    {
        let stem = if self.details.pypy_version.is_some() {
            "pypy"
        } else {
            "python"
        };
        let s = versioned(stem, &self.details.version, true);
        proof {
            vstd::seq_lib::lemma_concat_associative(
                stem@ + dec(self.details.version.major as nat),
                "."@,
                dec(self.details.version.minor as nat),
            );
        }
        s
    }

    /// Where the interpreter may be found below its prefix.
    pub fn prefix_rel_paths(&self) -> (paths: Vec<String>)
        ensures
            crate::tags::views(paths@) == spec_candidate_rel_paths(
                self.details.version,
                self.details.pypy_version is Some,
            ),
    {
        candidate_rel_paths(&self.details.version, self.details.pypy_version.is_some())
    }

    /// The arguments that run the interpreter isolated from the user's
    /// environment.
    pub fn hermetic_args(&self) -> (s: &'static str)
        ensures
            s@ == spec_hermetic_args(self.details.version),
    {
        if self.details.version.major == 3 && self.details.version.minor >= 4 {
            "-I"
        } else {
            "-sE"
        }
    }

    /// Whether the interpreter belongs to a virtual environment: it has a
    /// base prefix other than its prefix.
    pub fn is_venv(&self) -> (res: bool)
        ensures
            res == match self.details.base_prefix {
                Some(b) => b@ != self.details.prefix@,
                None => false,
            },
    {
        match &self.details.base_prefix {
            Some(base_prefix) => !(*base_prefix == self.details.prefix),
            None => false,
        }
    }

    /// How the interpreter is described: `interpreter at <path>`.
    pub fn description(&self) -> (s: String)
        ensures
            s@ == "interpreter at "@ + self.details.path@,
    {
        let mut s = String::from_str("interpreter at ");
        s.append(self.details.path.as_str());
        s
    }

    /// The platform details of the interpreter.
    pub fn platform_details(&self) -> (d: &PlatformDetails)
        ensures
            *d == self.platform_details,
    {
        &self.platform_details
    }
}

} // verus!
