//! Where the files of a wheel are installed in a virtual environment.

use vstd::prelude::*;
use vstd::string::StringExecFns;

use crate::interpreter::{spec_lookup, InterpreterDetails};
use crate::text::{dec, push_decimal};
use crate::tools::{is_separator_choice, join, path_separator, spec_join};
use crate::version::PythonVersion;

verus! {

/// Why the install paths of a virtual environment could not be found.
#[derive(Copy, Clone, Debug, PartialEq, Eq)]
pub enum InstallPathsError {
    /// The interpreter reports no `sysconfig` path of this name.
    MissingSysconfigPath(SysconfigPath),
}

/// The `sysconfig` paths a wheel is installed into.
#[derive(Copy, Clone, Debug, PartialEq, Eq)]
pub enum SysconfigPath {
    Data,
    Platlib,
    Purelib,
    Scripts,
}

/// The name of a `sysconfig` path.
pub open spec fn spec_sysconfig_name(p: SysconfigPath) -> Seq<char> {
    match p {
        SysconfigPath::Data => "data"@,
        SysconfigPath::Platlib => "platlib"@,
        SysconfigPath::Purelib => "purelib"@,
        SysconfigPath::Scripts => "scripts"@,
    }
}

impl SysconfigPath {
    /// The name of the path.
    pub fn name(&self) -> (s: &'static str)
        ensures
            s@ == spec_sysconfig_name(*self),
    {
        match self {
            SysconfigPath::Data => "data",
            SysconfigPath::Platlib => "platlib",
            SysconfigPath::Purelib => "purelib",
            SysconfigPath::Scripts => "scripts",
        }
    }
}

/// Where the files of a wheel go in a virtual environment: the `data`,
/// `platlib`, `purelib` and `scripts` paths of its interpreter, and the base
/// directory of the headers of its projects.
pub struct InstallPaths {
    pub python_version: PythonVersion,
    pub data: String,
    pub headers_base: String,
    pub platlib: String,
    pub purelib: String,
    pub scripts: String,
}

/// The base directory of the headers under the prefix of a virtual
/// environment: `include/site/python<major>.<minor>`, joined with the path
/// separator `sep`.
pub open spec fn spec_headers_base(prefix: Seq<char>, version: PythonVersion, sep: char) -> Seq<char> {
    spec_join(
        spec_join(spec_join(prefix, "include"@, sep), "site"@, sep),
        "python"@ + dec(version.major as nat) + "."@ + dec(version.minor as nat),
        sep,
    )
}

/// The install paths of a virtual environment with prefix `prefix` whose
/// interpreter reports `paths`: an error naming the first of `data`,
/// `platlib`, `purelib` and `scripts` it does not report; paths are joined
/// with the separator `sep`.
pub open spec fn spec_for_venv(prefix: Seq<char>, version: PythonVersion, paths: Seq<(String, String)>, sep: char) -> Result<
    (Seq<char>, Seq<char>, Seq<char>, Seq<char>, Seq<char>),
    InstallPathsError,
> {
    match (
        spec_lookup(paths, "data"@),
        spec_lookup(paths, "platlib"@),
        spec_lookup(paths, "purelib"@),
        spec_lookup(paths, "scripts"@),
    ) {
        (None, _, _, _) => Err(InstallPathsError::MissingSysconfigPath(SysconfigPath::Data)),
        (_, None, _, _) => Err(InstallPathsError::MissingSysconfigPath(SysconfigPath::Platlib)),
        (_, _, None, _) => Err(InstallPathsError::MissingSysconfigPath(SysconfigPath::Purelib)),
        (_, _, _, None) => Err(InstallPathsError::MissingSysconfigPath(SysconfigPath::Scripts)),
        (Some(data), Some(platlib), Some(purelib), Some(scripts)) => Ok(
            (data, spec_headers_base(prefix, version, sep), platlib, purelib, scripts),
        ),
    }
}

fn sysconfig_path(details: &InterpreterDetails, which: SysconfigPath) -> (res: Result<String, InstallPathsError>)
    ensures
        match spec_lookup(details.paths@, spec_sysconfig_name(which)) {
            Some(p) => res matches Ok(s) && s@ == p,
            None => res == Err::<String, InstallPathsError>(InstallPathsError::MissingSysconfigPath(which)),
        },
{
    match details.sysconfig_path(which.name()) {
        Some(p) => Ok(String::from_str(p)),
        None => Err(InstallPathsError::MissingSysconfigPath(which)),
    }
}

impl InstallPaths {
    /// The install paths of the virtual environment with prefix `prefix`
    /// whose interpreter has the details `details`, as [`spec_for_venv`]
    /// gives them with the platform's path separator.
    pub fn for_venv(prefix: &str, details: &InterpreterDetails) -> (res: Result<InstallPaths, InstallPathsError>)
        ensures
            exists|sep: char|
                #[trigger] is_separator_choice(sep) && match spec_for_venv(prefix@, details.version, details.paths@, sep) {
                    Ok((data, headers_base, platlib, purelib, scripts)) => res matches Ok(p) && p.python_version
                        == details.version && p.data@ == data && p.headers_base@ == headers_base && p.platlib@
                        == platlib && p.purelib@ == purelib && p.scripts@ == scripts,
                    Err(e) => res matches Err(f) && f == e,
                },
    {
        let sep = path_separator();
        assert(is_separator_choice(sep));
        proof {
            reveal_strlit("data");
            reveal_strlit("platlib");
            reveal_strlit("purelib");
            reveal_strlit("scripts");
        }
        let data = sysconfig_path(details, SysconfigPath::Data)?;
        let headers_root = join(prefix, "include", sep);
        let site = join(headers_root.as_str(), "site", sep);
        let mut versioned = String::from_str("python");
        push_decimal(&mut versioned, details.version.major as u64);
        let ghost base = versioned@;
        versioned.append(".");
        push_decimal(&mut versioned, details.version.minor as u64);
        proof {
            vstd::seq_lib::lemma_concat_associative(base, "."@, dec(details.version.minor as nat));
        }
        let headers_base = join(site.as_str(), versioned.as_str(), sep);
        let platlib = sysconfig_path(details, SysconfigPath::Platlib)?;
        let purelib = sysconfig_path(details, SysconfigPath::Purelib)?;
        let scripts = sysconfig_path(details, SysconfigPath::Scripts)?;
        Ok(InstallPaths { python_version: details.version, data, headers_base, platlib, purelib, scripts })
    }

    /// The directory the headers of project `project_name` are installed
    /// in, joined with the platform's path separator.
    pub fn headers(&self, project_name: &str) -> (s: String)
        ensures
            exists|sep: char| #[trigger] is_separator_choice(sep) && s@ == spec_join(self.headers_base@, project_name@, sep),
    {
        let sep = path_separator();
        assert(is_separator_choice(sep));
        join(self.headers_base.as_str(), project_name, sep)
    }
}

} // verus!
