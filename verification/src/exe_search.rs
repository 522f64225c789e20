//! The decisions of the search for Python executables that may run a PEX:
//! which paths a search yields once each, and, on Windows, in which order
//! the interpreters the registry and the caller name are tried before the
//! directories of the search path are listed.
//!
//! Reading the registry, listing directories and resolving links is left to
//! the caller, who hands the results in; the file names and stems of paths
//! are taken with `std::path`.

use vstd::prelude::*;

use crate::constraints::{constraint_admits, BinaryName, InterpreterConstraints, PythonBinarySpec};
use crate::tags::{str_views, views};
use crate::text::{chars_of, char_seqs, has_prefix, parse_uint, spec_parse_uint, split_all, split_chars, starts_with, str_eq};

verus! {

/// The paths a search has yielded.
pub struct SeenPaths {
    paths: Vec<String>,
}

impl View for SeenPaths {
    type V = Set<Seq<char>>;

    closed spec fn view(&self) -> Set<Seq<char>> {
        views(self.paths@).to_set()
    }
}

impl SeenPaths {
    /// No path seen yet.
    pub fn new() -> (s: SeenPaths)
        ensures
            s@ == Set::<Seq<char>>::empty(),
    {
        let s = SeenPaths { paths: Vec::new() };
        assert(s@ =~= Set::<Seq<char>>::empty());
        s
    }

    /// Whether `path` was seen.
    pub fn contains(&self, path: &str) -> (res: bool)
        ensures
            res == self@.contains(path@),
    {
        let mut i: usize = 0;
        while i < self.paths.len()
            invariant
                i <= self.paths@.len(),
                forall|k: int| 0 <= k < i ==> self.paths@[k]@ != path@,
            decreases self.paths@.len() - i,
        {
            if str_eq(self.paths[i].as_str(), path) {
                assert(views(self.paths@)[i as int] == path@);
                return true;
            }
            i = i + 1;
        }
        assert(!self@.contains(path@)) by {
            if views(self.paths@).contains(path@) {
                let k = choose|k: int| 0 <= k < views(self.paths@).len() && views(self.paths@)[k] == path@;
                assert(self.paths@[k]@ == path@);
            }
        }
        false
    }

    /// Visits the real path of a found interpreter: yields it (`true`) the
    /// first time, and never again.
    pub fn visit(&mut self, path: String) -> (fresh: bool)
        ensures
            fresh == !old(self)@.contains(path@),
            final(self)@ == old(self)@.insert(path@),
    {
        if self.contains(path.as_str()) {
            assert(old(self)@.insert(path@) =~= old(self)@);
            false
        } else {
            let ghost before = views(self.paths@);
            let ghost p = path@;
            self.paths.push(path);
            assert(views(self.paths@) =~= before.push(p));
            assert(views(self.paths@).to_set() =~= before.to_set().insert(p)) by {
                assert forall|x: Seq<char>| views(self.paths@).to_set().contains(x) <==> before.to_set().insert(
                    p,
                ).contains(x) by {
                    if views(self.paths@).contains(x) {
                        let k = choose|k: int| 0 <= k < views(self.paths@).len() && views(self.paths@)[k] == x;
                        if k < before.len() {
                            assert(before[k] == x);
                        }
                    }
                    if before.contains(x) {
                        let k = choose|k: int| 0 <= k < before.len() && before[k] == x;
                        assert(views(self.paths@)[k] == x);
                    }
                    if x == p {
                        assert(views(self.paths@)[before.len() as int] == x);
                    }
                }
            }
            true
        }
    }
}

/// A search yields a path at most once: once visited, a path is among those
/// seen, so visiting it again yields nothing.
pub proof fn law_visit_once(seen: Set<Seq<char>>, path: Seq<char>)
    ensures
        seen.insert(path).contains(path),
{
}

/// A path an interpreter may be found at, with its file name and stem as
/// `std::path` takes them (`None` where there is none or it is not UTF-8).
pub struct Candidate {
    pub path: String,
    pub file_name: Option<String>,
    pub file_stem: Option<String>,
}

/// The text of an optional string.
pub open spec fn opt_text(s: Option<String>) -> Option<Seq<char>> {
    match s {
        Some(s) => Some(s@),
        None => None,
    }
}

/// `Path::file_name` of the standard library, as text. What it gives is not
/// stated here: it depends on the platform's path syntax.
#[verifier::external_body]
fn path_file_name(path: &str) -> Option<String> {
    std::path::Path::new(path).file_name().and_then(|n| n.to_str()).map(String::from)
}

/// `Path::file_stem` of the standard library, as text. What it gives is not
/// stated here: it depends on the platform's path syntax.
#[verifier::external_body]
fn path_file_stem(path: &str) -> Option<String> {
    std::path::Path::new(path).file_stem().and_then(|n| n.to_str()).map(String::from)
}

impl Candidate {
    /// The candidate at `path`, with its file name and stem.
    pub fn new(path: String) -> (c: Candidate)
        ensures
            c.path@ == path@,
    {
        let file_name = path_file_name(path.as_str());
        let file_stem = path_file_stem(path.as_str());
        Candidate { path, file_name, file_stem }
    }
}

/// The stem of the executables of a binary name: `python` or `pypy`.
pub open spec fn spec_stem(name: BinaryName) -> Seq<char> {
    match name {
        BinaryName::Python => "python"@,
        BinaryName::PyPy => "pypy"@,
    }
}

fn stem_of(name: BinaryName) -> (s: &'static str)
    ensures
        s@ == spec_stem(name),
{
    match name {
        BinaryName::Python => "python",
        BinaryName::PyPy => "pypy",
    }
}

/// Whether a candidate is one looked for: with the file name `PEX_PYTHON`
/// names, when set; else with a file stem that begins with `stem`.
pub open spec fn matches(c: Candidate, pex_python: Option<Seq<char>>, stem: Seq<char>) -> bool {
    match pex_python {
        Some(n) => opt_text(c.file_name) == Some(n),
        None => match c.file_stem {
            Some(s) => has_prefix(s@, stem),
            None => false,
        },
    }
}

fn matches_exec(c: &Candidate, pex_python: Option<&str>, stem: &str) -> (res: bool)
    ensures
        res == matches(*c, opt_str(pex_python), stem@),
{
    match pex_python {
        Some(n) => match &c.file_name {
            Some(f) => str_eq(f.as_str(), n),
            None => false,
        },
        None => match &c.file_stem {
            Some(s) => {
                let sc = chars_of(s.as_str());
                let pc = chars_of(stem);
                starts_with(sc.as_slice(), pc.as_slice())
            },
            None => false,
        },
    }
}

/// The text of an optional string slice.
pub open spec fn opt_str(s: Option<&str>) -> Option<Seq<char>> {
    match s {
        Some(s) => Some(s@),
        None => None,
    }
}

/// The first `n` of the candidates `ps` (positions in `cands`) split into
/// those that match and those that do not, each in order.
pub open spec fn split_matching(
    cands: Seq<Candidate>,
    ps: Seq<usize>,
    pex_python: Option<Seq<char>>,
    stem: Seq<char>,
    n: nat,
) -> (Seq<usize>, Seq<usize>)
    decreases n,
{
    if n == 0 {
        (Seq::empty(), Seq::empty())
    } else {
        let (yes, no) = split_matching(cands, ps, pex_python, stem, (n - 1) as nat);
        let p = ps[n - 1];
        if matches(cands[p as int], pex_python, stem) {
            (yes.push(p), no)
        } else {
            (yes, no.push(p))
        }
    }
}

/// The position of the first entry from position `i` on for the version
/// `key`.
pub open spec fn entry_from(v: Seq<((u8, u8), Seq<usize>)>, key: (u8, u8), i: nat) -> Option<nat>
    decreases v.len() - i,
{
    if i >= v.len() {
        None
    } else if v[i as int].0 == key {
        Some(i)
    } else {
        entry_from(v, key, i + 1)
    }
}

/// The interpreters of known versions tried for the first `n` binary specs,
/// and those left: for each spec in turn, those of its version whose names
/// match it are tried, the others are kept for later specs.
pub open spec fn versioned_pass(
    cands: Seq<Candidate>,
    specs: Seq<PythonBinarySpec>,
    versioned: Seq<((u8, u8), Seq<usize>)>,
    pex_python: Option<Seq<char>>,
    n: nat,
) -> (Seq<usize>, Seq<((u8, u8), Seq<usize>)>)
    decreases n,
{
    if n == 0 {
        (Seq::empty(), versioned)
    } else {
        let (tried, left) = versioned_pass(cands, specs, versioned, pex_python, (n - 1) as nat);
        let spec = specs[n - 1];
        let key = (spec.major, spec.minor);
        match entry_from(left, key, 0) {
            None => (tried, left),
            Some(k) => {
                let ps = left[k as int].1;
                let (yes, no) = split_matching(cands, ps, pex_python, spec_stem(spec.name), ps.len());
                (tried + yes, left.update(k as int, (key, no)))
            },
        }
    }
}

/// The stems of the first `n` binary specs, each once in the order they
/// first appear.
pub open spec fn spec_stems(specs: Seq<PythonBinarySpec>, n: nat) -> Seq<Seq<char>>
    decreases n,
{
    if n == 0 {
        Seq::empty()
    } else {
        let before = spec_stems(specs, (n - 1) as nat);
        let s = spec_stem(specs[n - 1].name);
        if before.contains(s) {
            before
        } else {
            before.push(s)
        }
    }
}

/// The stems the explicitly named interpreters and the search path are
/// matched by: those of the binary specs when `PEX_PYTHON` is not set and
/// some interpreter was named; none otherwise.
pub open spec fn search_stems(specs: Seq<PythonBinarySpec>, pex_python: Option<Seq<char>>, explicit: Seq<usize>) -> Seq<
    Seq<char>,
> {
    if pex_python is None && explicit.len() > 0 {
        spec_stems(specs, specs.len())
    } else {
        Seq::empty()
    }
}

/// The explicitly named interpreters tried for the first `n` stems, and
/// those left: for each stem in turn, those whose file stem begins with it.
pub open spec fn explicit_pass(cands: Seq<Candidate>, explicit: Seq<usize>, stems: Seq<Seq<char>>, n: nat) -> (
    Seq<usize>,
    Seq<usize>,
)
    decreases n,
{
    if n == 0 {
        (Seq::empty(), explicit)
    } else {
        let (tried, left) = explicit_pass(cands, explicit, stems, (n - 1) as nat);
        let (yes, no) = split_matching(cands, left, None, stems[n - 1], left.len());
        (tried + yes, no)
    }
}

/// The order the registry's and the caller's interpreters are tried in,
/// before the search path: those of known versions, spec by spec; then the
/// explicitly named ones, by the file name `PEX_PYTHON` names when set, else
/// stem by stem.
pub open spec fn spec_try_order(
    cands: Seq<Candidate>,
    specs: Seq<PythonBinarySpec>,
    versioned: Seq<((u8, u8), Seq<usize>)>,
    explicit: Seq<usize>,
    pex_python: Option<Seq<char>>,
) -> Seq<usize> {
    let versioned_tried = versioned_pass(cands, specs, versioned, pex_python, specs.len()).0;
    let explicit_tried = match pex_python {
        Some(_) => split_matching(cands, explicit, pex_python, Seq::empty(), explicit.len()).0,
        None => {
            let stems = search_stems(specs, pex_python, explicit);
            explicit_pass(cands, explicit, stems, stems.len()).0
        },
    };
    versioned_tried + explicit_tried
}

/// The interpreter positions of a table of versions, by entry.
pub open spec fn versioned_view(v: Seq<((u8, u8), Vec<usize>)>) -> Seq<((u8, u8), Seq<usize>)> {
    v.map_values(|e: ((u8, u8), Vec<usize>)| (e.0, e.1@))
}

/// Whether every position is one of `n` candidates.
pub open spec fn positions_in(ps: Seq<usize>, n: nat) -> bool {
    forall|i: int| 0 <= i < ps.len() ==> #[trigger] ps[i] < n
}

fn split_exec(cands: &Vec<Candidate>, ps: &Vec<usize>, pex_python: Option<&str>, stem: &str) -> (res: (
    Vec<usize>,
    Vec<usize>,
))
    requires
        positions_in(ps@, cands@.len()),
    ensures
        (res.0@, res.1@) == split_matching(cands@, ps@, opt_str(pex_python), stem@, ps@.len()),
        positions_in(res.1@, cands@.len()),
{
    let mut yes: Vec<usize> = Vec::new();
    let mut no: Vec<usize> = Vec::new();
    let mut i: usize = 0;
    while i < ps.len()
        invariant
            i <= ps@.len(),
            positions_in(ps@, cands@.len()),
            positions_in(no@, cands@.len()),
            (yes@, no@) == split_matching(cands@, ps@, opt_str(pex_python), stem@, i as nat),
        decreases ps@.len() - i,
    {
        let p = ps[i];
        assert(p < cands@.len());
        if matches_exec(&cands[p], pex_python, stem) {
            yes.push(p);
        } else {
            no.push(p);
        }
        i = i + 1;
    }
    (yes, no)
}

fn find_entry(v: &Vec<((u8, u8), Vec<usize>)>, key: (u8, u8)) -> (res: Option<usize>)
    ensures
        match res {
            Some(k) => entry_from(versioned_view(v@), key, 0) == Some(k as nat) && k < v@.len(),
            None => entry_from(versioned_view(v@), key, 0) is None,
        },
{
    let ghost vv = versioned_view(v@);
    let mut i: usize = 0;
    while i < v.len()
        invariant
            i <= v@.len(),
            vv == versioned_view(v@),
            entry_from(vv, key, 0) == entry_from(vv, key, i as nat),
        decreases v@.len() - i,
    {
        assert(vv[i as int].0 == v@[i as int].0);
        if v[i].0.0 == key.0 && v[i].0.1 == key.1 {
            return Some(i);
        }
        i = i + 1;
    }
    None
}

fn stems_exec(specs: &Vec<PythonBinarySpec>) -> (stems: Vec<&'static str>)
    ensures
        str_views(stems@) == spec_stems(specs@, specs@.len()),
{
    let mut stems: Vec<&'static str> = Vec::new();
    let mut i: usize = 0;
    while i < specs.len()
        invariant
            i <= specs@.len(),
            str_views(stems@) == spec_stems(specs@, i as nat),
        decreases specs@.len() - i,
    {
        let s = stem_of(specs[i].name);
        let ghost before = str_views(stems@);
        let mut found = false;
        let mut k: usize = 0;
        while k < stems.len()
            invariant
                k <= stems@.len(),
                before == str_views(stems@),
                found ==> before.contains(s@),
                !found ==> forall|j: int| 0 <= j < k ==> before[j] != s@,
            decreases stems@.len() - k,
        {
            if str_eq(stems[k], s) {
                assert(before[k as int] == s@);
                found = true;
            }
            assert(before[k as int] == stems@[k as int]@);
            k = k + 1;
        }
        if !found {
            stems.push(s);
            assert(str_views(stems@) =~= before.push(s@));
        }
        i = i + 1;
    }
    stems
}

/// The order in which the interpreters of known versions (`versioned`: by
/// version, positions in `cands`) and the explicitly named ones
/// (`explicit`) are tried, as [`spec_try_order`] gives it, and the stems the
/// search path is then matched by ([`search_stems`]).
pub fn try_order(
    cands: &Vec<Candidate>,
    specs: &Vec<PythonBinarySpec>,
    versioned: Vec<((u8, u8), Vec<usize>)>,
    explicit: &Vec<usize>,
    pex_python: Option<&str>,
) -> (res: (Vec<usize>, Vec<&'static str>))
    requires
        positions_in(explicit@, cands@.len()),
        forall|k: int| 0 <= k < versioned@.len() ==> positions_in(#[trigger] versioned@[k].1@, cands@.len()),
    ensures
        res.0@ == spec_try_order(cands@, specs@, versioned_view(versioned@), explicit@, opt_str(pex_python)),
        str_views(res.1@) == search_stems(specs@, opt_str(pex_python), explicit@),
        listed_once(versioned_view(versioned@), explicit@) ==> res.0@.no_duplicates(),
{
    proof {
        if listed_once(versioned_view(versioned@), explicit@) {
            law_try_order_once(cands@, specs@, versioned_view(versioned@), explicit@, opt_str(pex_python));
        }
    }
    let ghost v0 = versioned_view(versioned@);
    let ghost pex = opt_str(pex_python);
    let mut versioned = versioned;
    let mut tried: Vec<usize> = Vec::new();
    let mut i: usize = 0;
    while i < specs.len()
        invariant
            i <= specs@.len(),
            pex == opt_str(pex_python),
            forall|k: int| 0 <= k < versioned@.len() ==> positions_in(#[trigger] versioned@[k].1@, cands@.len()),
            (tried@, versioned_view(versioned@)) == versioned_pass(cands@, specs@, v0, pex, i as nat),
        decreases specs@.len() - i,
    {
        let spec = specs[i];
        let key = (spec.major, spec.minor);
        match find_entry(&versioned, key) {
            None => {},
            Some(k) => {
                let ghost left = versioned_view(versioned@);
                let (yes, no) = split_exec(cands, &versioned[k].1, pex_python, stem_of(spec.name));
                let ghost t0 = tried@;
                let mut j: usize = 0;
                while j < yes.len()
                    invariant
                        j <= yes@.len(),
                        tried@ == t0 + yes@.take(j as int),
                    decreases yes@.len() - j,
                {
                    tried.push(yes[j]);
                    assert(yes@.take(j + 1) =~= yes@.take(j as int).push(yes@[j as int]));
                    j = j + 1;
                }
                assert(yes@.take(yes@.len() as int) =~= yes@);
                let ghost no_view = no@;
                versioned.set(k, (key, no));
                assert(versioned_view(versioned@) =~= left.update(k as int, (key, no_view)));
            },
        }
        i = i + 1;
    }
    let stems = if pex_python.is_none() && explicit.len() > 0 {
        stems_exec(specs)
    } else {
        let s: Vec<&'static str> = Vec::new();
        assert(str_views(s@) =~= Seq::<Seq<char>>::empty());
        s
    };
    let ghost stems_view = str_views(stems@);
    match pex_python {
        Some(_) => {
            let (yes, _) = split_exec(cands, explicit, pex_python, "");
            let ghost t0 = tried@;
            proof {
                reveal_strlit("");
                assert(""@ =~= Seq::<char>::empty());
            }
            let mut j: usize = 0;
            while j < yes.len()
                invariant
                    j <= yes@.len(),
                    tried@ == t0 + yes@.take(j as int),
                decreases yes@.len() - j,
            {
                tried.push(yes[j]);
                assert(yes@.take(j + 1) =~= yes@.take(j as int).push(yes@[j as int]));
                j = j + 1;
            }
            assert(yes@.take(yes@.len() as int) =~= yes@);
        },
        None => {
            let ghost t0 = tried@;
            let mut left: Vec<usize> = Vec::new();
            let mut j: usize = 0;
            while j < explicit.len()
                invariant
                    j <= explicit@.len(),
                    left@ == explicit@.take(j as int),
                decreases explicit@.len() - j,
            {
                left.push(explicit[j]);
                assert(explicit@.take(j + 1) =~= explicit@.take(j as int).push(explicit@[j as int]));
                j = j + 1;
            }
            assert(explicit@.take(explicit@.len() as int) =~= explicit@);
            let mut s: usize = 0;
            while s < stems.len()
                invariant
                    s <= stems@.len(),
                    pex == opt_str(pex_python),
                    pex_python is None,
                    stems_view == str_views(stems@),
                    positions_in(left@, cands@.len()),
                    ({
                        let (et, el) = explicit_pass(cands@, explicit@, stems_view, s as nat);
                        tried@ == t0 + et && left@ == el
                    }),
                decreases stems@.len() - s,
            {
                let (yes, no) = split_exec(cands, &left, None, stems[s]);
                assert(stems_view[s as int] == stems@[s as int]@);
                let ghost t1 = tried@;
                let mut j: usize = 0;
                while j < yes.len()
                    invariant
                        j <= yes@.len(),
                        tried@ == t1 + yes@.take(j as int),
                    decreases yes@.len() - j,
                {
                    tried.push(yes[j]);
                    assert(yes@.take(j + 1) =~= yes@.take(j as int).push(yes@[j as int]));
                    j = j + 1;
                }
                assert(yes@.take(yes@.len() as int) =~= yes@);
                left = no;
                s = s + 1;
            }
        },
    }
    (tried, stems)
}

/// Whether a file found on the search path is tried: one not already seen
/// among the registry's and the caller's interpreters, executable, and with
/// the file name `PEX_PYTHON` names when set, else with a file stem that
/// begins with one of the search stems.
pub open spec fn spec_path_file_tried(
    c: Candidate,
    seen: bool,
    executable: bool,
    pex_python: Option<Seq<char>>,
    stems: Seq<Seq<char>>,
) -> bool {
    &&& !seen
    &&& executable
    &&& match pex_python {
        Some(_) => matches(c, pex_python, Seq::empty()),
        None => exists|k: int| 0 <= k < stems.len() && matches(c, None, #[trigger] stems[k]),
    }
}

/// Whether a file found on the search path is tried, as
/// [`spec_path_file_tried`] decides.
pub fn path_file_tried(
    c: &Candidate,
    seen: bool,
    executable: bool,
    pex_python: Option<&str>,
    stems: &Vec<&'static str>,
) -> (res: bool)
    ensures
        res == spec_path_file_tried(*c, seen, executable, opt_str(pex_python), str_views(stems@)),
{
    if seen || !executable {
        return false;
    }
    match pex_python {
        Some(_) => {
            proof {
                reveal_strlit("");
                assert(""@ =~= Seq::<char>::empty());
            }
            matches_exec(c, pex_python, "")
        },
        None => {
            let ghost sv = str_views(stems@);
            let mut k: usize = 0;
            while k < stems.len()
                invariant
                    k <= stems@.len(),
                    !seen && executable,
                    pex_python is None,
                    sv == str_views(stems@),
                    forall|j: int| 0 <= j < k ==> !matches(*c, None, #[trigger] sv[j]),
                decreases stems@.len() - k,
            {
                assert(sv[k as int] == stems@[k as int]@);
                if matches_exec(c, None, stems[k]) {
                    assert(matches(*c, None, sv[k as int]));
                    return true;
                }
                k = k + 1;
            }
            false
        },
    }
}

/// The version `<major>.<minor>` a registry `SysVersion` value gives: its
/// first two dot-separated components, each a `u8`.
pub open spec fn registry_version(s: Seq<char>) -> Option<(u8, u8)> {
    let parts = split_all(s, '.');
    if parts.len() >= 2 {
        match (spec_parse_uint(parts[0], 255), spec_parse_uint(parts[1], 255)) {
            (Some(major), Some(minor)) => Some((major as u8, minor as u8)),
            _ => None,
        }
    } else {
        None
    }
}

/// The version a registry `SysVersion` value gives, as
/// [`registry_version`] reads it.
pub fn parse_registry_version(s: &str) -> (v: Option<(u8, u8)>)
    ensures
        v == registry_version(s@),
{
    let chars = chars_of(s);
    let parts = split_chars(chars.as_slice(), '.');
    if parts.len() < 2 {
        return None;
    }
    assert(char_seqs(parts@)[0] == parts@[0]@ && char_seqs(parts@)[1] == parts@[1]@);
    match (parse_uint(&parts[0], 255), parse_uint(&parts[1], 255)) {
        (Some(major), Some(minor)) => Some((major as u8, minor as u8)),
        _ => None,
    }
}

/// One interpreter the Windows registry lists (PEP 514): the company it is
/// listed under, its `SysVersion` value, and its executable's path (its
/// `ExecutablePath`, or `python.exe` under its install prefix), where given.
pub struct RegistryPython {
    pub company: String,
    pub sys_version: Option<String>,
    pub path: Option<String>,
}

/// The interpreters known before the search path is listed: their paths,
/// the positions of those named explicitly (in order), and by version the
/// positions of those the registry gives a version for (in order).
pub struct KnownPythons {
    pub paths: Vec<String>,
    pub explicit: Vec<usize>,
    pub versioned: Vec<((u8, u8), Vec<usize>)>,
}

/// The known interpreters as mathematical values.
pub struct KnownView {
    pub paths: Seq<Seq<char>>,
    pub explicit: Seq<usize>,
    pub versioned: Seq<((u8, u8), Seq<usize>)>,
}

/// The known interpreters as mathematical values.
pub open spec fn known_view(k: KnownPythons) -> KnownView {
    KnownView { paths: views(k.paths@), explicit: k.explicit@, versioned: versioned_view(k.versioned@) }
}

/// Whether a path is among the known interpreters.
pub open spec fn is_known(k: KnownView, p: Seq<char>) -> bool {
    k.paths.contains(p)
}

/// The known interpreters with the path `p` added, of version `v` when
/// given, else as one named explicitly.
pub open spec fn add_known(k: KnownView, p: Seq<char>, v: Option<(u8, u8)>) -> KnownView {
    let i = k.paths.len() as usize;
    let paths = k.paths.push(p);
    match v {
        None => KnownView { paths, explicit: k.explicit.push(i), versioned: k.versioned },
        Some(key) => match entry_from(k.versioned, key, 0) {
            Some(e) => KnownView {
                paths,
                explicit: k.explicit,
                versioned: k.versioned.update(e as int, (key, k.versioned[e as int].1.push(i))),
            },
            None => KnownView { paths, explicit: k.explicit, versioned: k.versioned.push((key, seq![i])) },
        },
    }
}

/// The known interpreters after the explicitly named `paths`, each once.
pub open spec fn spec_named(paths: Seq<Seq<char>>, n: nat) -> KnownView
    decreases n,
{
    if n == 0 {
        KnownView { paths: Seq::empty(), explicit: Seq::empty(), versioned: Seq::empty() }
    } else {
        let k = spec_named(paths, (n - 1) as nat);
        if is_known(k, paths[n - 1]) {
            k
        } else {
            add_known(k, paths[n - 1], None)
        }
    }
}

/// The known interpreters after one registry entry: it is passed over when
/// listed by the `PyLauncher` company, when its version is one the
/// interpreter constraints do not admit (`admitted`), when it has no path,
/// when its path is already known, or when a search path is set and the
/// path lies under none of its entries (`under_search_path`); else it is
/// added, by version when it has one.
pub open spec fn registry_step(
    k: KnownView,
    company: Seq<char>,
    sys_version: Option<Seq<char>>,
    path: Option<Seq<char>>,
    admitted: bool,
    under_search_path: bool,
) -> KnownView {
    let version = match sys_version {
        Some(t) => registry_version(t),
        None => None,
    };
    if company == "PyLauncher"@ {
        k
    } else if version is Some && !admitted {
        k
    } else {
        match path {
            None => k,
            Some(p) => if is_known(k, p) || !under_search_path {
                k
            } else {
                add_known(k, p, version)
            },
        }
    }
}

/// The known interpreters after the first `n` registry entries.
pub open spec fn spec_registry(
    start: KnownView,
    entries: Seq<RegistryPython>,
    admitted: Seq<bool>,
    under: Seq<bool>,
    n: nat,
) -> KnownView
    decreases n,
{
    if n == 0 {
        start
    } else {
        let k = spec_registry(start, entries, admitted, under, (n - 1) as nat);
        let e = entries[n - 1];
        registry_step(k, e.company@, opt_text(e.sys_version), opt_text(e.path), admitted[n - 1], under[n - 1])
    }
}

/// Whether the positions of known interpreters are in range.
pub open spec fn known_wf(k: KnownView) -> bool {
    &&& positions_in(k.explicit, k.paths.len())
    &&& forall|e: int| 0 <= e < k.versioned.len() ==> positions_in(#[trigger] k.versioned[e].1, k.paths.len())
    &&& listed_once(k.versioned, k.explicit)
    &&& k.paths.len() <= usize::MAX
}

proof fn lemma_fresh_push(ps: Seq<usize>, i: usize)
    requires
        ps.no_duplicates(),
        positions_in(ps, i as nat),
    ensures
        ps.push(i).no_duplicates(),
        forall|x: usize| #[trigger] ps.push(i).contains(x) <==> ps.contains(x) || x == i,
        !ps.contains(i),
{
    assert(!ps.contains(i)) by {
        if ps.contains(i) {
            let j = choose|j: int| 0 <= j < ps.len() && #[trigger] ps[j] == i;
        }
    }
    assert forall|x: usize| #[trigger] ps.push(i).contains(x) <==> ps.contains(x) || x == i by {
        if ps.push(i).contains(x) {
            let j = choose|j: int| 0 <= j < ps.push(i).len() && #[trigger] ps.push(i)[j] == x;
            if j < ps.len() {
                assert(ps[j] == x);
            }
        }
        if ps.contains(x) {
            let j = choose|j: int| 0 <= j < ps.len() && #[trigger] ps[j] == x;
            assert(ps.push(i)[j] == x);
        }
        if x == i {
            assert(ps.push(i)[ps.len() as int] == x);
        }
    }
}

proof fn lemma_add_known_wf(k: KnownView, p: Seq<char>, v: Option<(u8, u8)>)
    requires
        known_wf(k),
        k.paths.len() < usize::MAX,
    ensures
        known_wf(add_known(k, p, v)),
{
    let i = k.paths.len() as usize;
    let k2 = add_known(k, p, v);
    assert forall|e: int| 0 <= e < k.versioned.len() implies !(#[trigger] k.versioned[e]).1.contains(i) by {
        if k.versioned[e].1.contains(i) {
            let j = choose|j: int| 0 <= j < k.versioned[e].1.len() && #[trigger] k.versioned[e].1[j] == i;
            assert(positions_in(k.versioned[e].1, k.paths.len()));
        }
    }
    assert forall|e: int| 0 <= e < k2.versioned.len() implies positions_in(#[trigger] k2.versioned[e].1, k2.paths.len()) by {
        if e < k.versioned.len() {
            assert(positions_in(k.versioned[e].1, k.paths.len()));
        }
        let l = k2.versioned[e].1;
        assert forall|j: int| 0 <= j < l.len() implies #[trigger] l[j] < k2.paths.len() by {
            match v {
                None => {
                    assert(l[j] == k.versioned[e].1[j]);
                },
                Some(key) => {
                    lemma_entry_from(k.versioned, key, 0);
                    match entry_from(k.versioned, key, 0) {
                        Some(e0) => {
                            if e == e0 && j == k.versioned[e].1.len() {
                                assert(l[j] == i);
                            } else {
                                assert(l[j] == k.versioned[e].1[j]);
                            }
                        },
                        None => {
                            if e < k.versioned.len() {
                                assert(l[j] == k.versioned[e].1[j]);
                            } else {
                                assert(l[j] == i);
                            }
                        },
                    }
                },
            }
        }
    }
    match v {
        None => {
            lemma_fresh_push(k.explicit, i);
            assert forall|e: int| 0 <= e < k2.versioned.len() implies disjoint(#[trigger] k2.versioned[e].1, k2.explicit) by {
                assert(disjoint(k.versioned[e].1, k.explicit));
            }
        },
        Some(key) => {
            lemma_entry_from(k.versioned, key, 0);
            match entry_from(k.versioned, key, 0) {
                Some(e0) => {
                    let old_list = k.versioned[e0 as int].1;
                    assert(positions_in(old_list, k.paths.len()));
                    lemma_fresh_push(old_list, i);
                    assert(!k.explicit.contains(i)) by {
                        if k.explicit.contains(i) {
                            let j = choose|j: int| 0 <= j < k.explicit.len() && #[trigger] k.explicit[j] == i;
                        }
                    }
                    assert forall|e1: int, e2: int|
                        0 <= e1 < k2.versioned.len() && 0 <= e2 < k2.versioned.len() && e1 != e2 implies disjoint(
                        #[trigger] k2.versioned[e1].1,
                        #[trigger] k2.versioned[e2].1,
                    ) by {
                        assert(disjoint(k.versioned[e1].1, k.versioned[e2].1));
                    }
                    assert forall|e: int| 0 <= e < k2.versioned.len() implies disjoint(#[trigger] k2.versioned[e].1, k2.explicit) by {
                        assert(disjoint(k.versioned[e].1, k.explicit));
                    }
                    assert forall|e: int| 0 <= e < k2.versioned.len() implies (#[trigger] k2.versioned[e]).1.no_duplicates() by {
                        if e != e0 {
                            assert(k2.versioned[e] == k.versioned[e]);
                        }
                    }
                },
                None => {
                    assert(!k.explicit.contains(i)) by {
                        if k.explicit.contains(i) {
                            let j = choose|j: int| 0 <= j < k.explicit.len() && #[trigger] k.explicit[j] == i;
                        }
                    }
                    let single = seq![i];
                    assert forall|x: usize| #[trigger] single.contains(x) <==> x == i by {
                        if x == i {
                            assert(single[0] == x);
                        }
                    }
                    assert forall|e1: int, e2: int|
                        0 <= e1 < k2.versioned.len() && 0 <= e2 < k2.versioned.len() && e1 != e2 implies disjoint(
                        #[trigger] k2.versioned[e1].1,
                        #[trigger] k2.versioned[e2].1,
                    ) by {
                        if e1 < k.versioned.len() && e2 < k.versioned.len() {
                            assert(disjoint(k.versioned[e1].1, k.versioned[e2].1));
                        }
                    }
                    assert forall|e: int| 0 <= e < k2.versioned.len() implies disjoint(#[trigger] k2.versioned[e].1, k2.explicit) by {
                        if e < k.versioned.len() {
                            assert(disjoint(k.versioned[e].1, k.explicit));
                        }
                    }
                    assert forall|e: int| 0 <= e < k2.versioned.len() implies (#[trigger] k2.versioned[e]).1.no_duplicates() by {
                        if e < k.versioned.len() {
                            assert(k2.versioned[e] == k.versioned[e]);
                        }
                    }
                },
            }
        },
    }
}

fn known_contains(k: &KnownPythons, p: &str) -> (res: bool)
    ensures
        res == is_known(known_view(*k), p@),
{
    let mut i: usize = 0;
    while i < k.paths.len()
        invariant
            i <= k.paths@.len(),
            forall|j: int| 0 <= j < i ==> k.paths@[j]@ != p@,
        decreases k.paths@.len() - i,
    {
        if str_eq(k.paths[i].as_str(), p) {
            assert(views(k.paths@)[i as int] == p@);
            return true;
        }
        i = i + 1;
    }
    assert(!views(k.paths@).contains(p@)) by {
        if views(k.paths@).contains(p@) {
            let j = choose|j: int| 0 <= j < views(k.paths@).len() && views(k.paths@)[j] == p@;
            assert(k.paths@[j]@ == p@);
        }
    }
    false
}

fn add_known_exec(k: &mut KnownPythons, p: String, v: Option<(u8, u8)>)
    requires
        known_wf(known_view(*old(k))),
    ensures
        known_view(*final(k)) == add_known(known_view(*old(k)), p@, v),
        known_wf(known_view(*final(k))),
{
    let ghost k0 = known_view(*k);
    let ghost pv = p@;
    let i = k.paths.len();
    k.paths.push(p);
    assert(views(k.paths@) =~= k0.paths.push(pv));
    match v {
        None => {
            k.explicit.push(i);
            assert(known_view(*k) =~= add_known(k0, pv, v));
        },
        Some(key) => match find_entry(&k.versioned, key) {
            Some(e) => {
                let mut list: Vec<usize> = Vec::new();
                let mut j: usize = 0;
                while j < k.versioned[e].1.len()
                    invariant
                        e < k.versioned@.len(),
                        j <= k.versioned@[e as int].1@.len(),
                        list@ == k.versioned@[e as int].1@.take(j as int),
                    decreases k.versioned@[e as int].1@.len() - j,
                {
                    list.push(k.versioned[e].1[j]);
                    assert(k.versioned@[e as int].1@.take(j + 1) =~= k.versioned@[e as int].1@.take(j as int).push(
                        k.versioned@[e as int].1@[j as int],
                    ));
                    j = j + 1;
                }
                assert(k.versioned@[e as int].1@.take(k.versioned@[e as int].1@.len() as int) =~= k.versioned@[e as int].1@);
                assert(list@ == k0.versioned[e as int].1);
                list.push(i);
                let ghost lv = list@;
                k.versioned.set(e, (key, list));
                assert(versioned_view(k.versioned@) =~= k0.versioned.update(e as int, (key, lv)));
                assert(known_view(*k) =~= add_known(k0, pv, v));
            },
            None => {
                let mut list: Vec<usize> = Vec::new();
                list.push(i);
                let ghost lv = list@;
                k.versioned.push((key, list));
                assert(lv =~= seq![i]);
                assert(versioned_view(k.versioned@) =~= k0.versioned.push((key, seq![i])));
                assert(known_view(*k) =~= add_known(k0, pv, v));
            },
        },
    }
    let n_after = k.paths.len();
    proof {
        assert(n_after == k0.paths.len() + 1);
        lemma_add_known_wf(k0, pv, v);
    }
}

/// The known interpreters from the explicitly named `paths`, each once in
/// the order first named.
pub fn named_pythons(paths: &Vec<String>) -> (k: KnownPythons)
    ensures
        known_view(k) == spec_named(views(paths@), paths@.len()),
        known_wf(known_view(k)),
{
    let mut k = KnownPythons { paths: Vec::new(), explicit: Vec::new(), versioned: Vec::new() };
    assert(views(k.paths@) =~= Seq::<Seq<char>>::empty());
    assert(versioned_view(k.versioned@) =~= Seq::<((u8, u8), Seq<usize>)>::empty());
    assert(known_view(k) == spec_named(views(paths@), 0));
    let mut i: usize = 0;
    while i < paths.len()
        invariant
            i <= paths@.len(),
            known_view(k) == spec_named(views(paths@), i as nat),
            known_wf(known_view(k)),
        decreases paths@.len() - i,
    {
        assert(views(paths@)[i as int] == paths@[i as int]@);
        if !known_contains(&k, paths[i].as_str()) {
            add_known_exec(&mut k, paths[i].clone(), None);
        }
        i = i + 1;
    }
    k
}

/// Adds the registry's interpreters to the known ones, entry by entry as
/// [`registry_step`] decides, given for each entry whether the interpreter
/// constraints admit its version and whether its path lies under the search
/// path.
pub fn add_registry_pythons(
    k: &mut KnownPythons,
    entries: &Vec<RegistryPython>,
    admitted: &Vec<bool>,
    under_search_path: &Vec<bool>,
)
    requires
        known_wf(known_view(*old(k))),
        admitted@.len() == entries@.len(),
        under_search_path@.len() == entries@.len(),
    ensures
        known_view(*final(k)) == spec_registry(
            known_view(*old(k)),
            entries@,
            admitted@,
            under_search_path@,
            entries@.len(),
        ),
        known_wf(known_view(*final(k))),
{
    let ghost start = known_view(*k);
    let mut i: usize = 0;
    while i < entries.len()
        invariant
            i <= entries@.len(),
            admitted@.len() == entries@.len(),
            under_search_path@.len() == entries@.len(),
            known_view(*k) == spec_registry(start, entries@, admitted@, under_search_path@, i as nat),
            known_wf(known_view(*k)),
        decreases entries@.len() - i,
    {
        let e = &entries[i];
        let version = match &e.sys_version {
            Some(t) => parse_registry_version(t.as_str()),
            None => None,
        };
        proof {
            reveal_strlit("PyLauncher");
        }
        let pass_over = str_eq(e.company.as_str(), "PyLauncher") || (version.is_some() && !admitted[i]);
        if !pass_over {
            match &e.path {
                None => {},
                Some(p) => {
                    if !known_contains(k, p.as_str()) && under_search_path[i] {
                        add_known_exec(k, p.clone(), version);
                    }
                },
            }
        }
        i = i + 1;
    }
}

/// Whether a path text holds no separator (`/` or `\\`) and no drive colon:
/// on every platform it is then one component, or none when empty.
pub open spec fn single_component(s: Seq<char>) -> bool {
    forall|i: int| 0 <= i < s.len() ==> s[i] != '/' && s[i] != '\\' && s[i] != ':'
}

/// Whether a path text holds no backslash and no drive colon: on every
/// platform its only separator is then `/` and it has no prefix component.
pub open spec fn slash_separated(s: Seq<char>) -> bool {
    forall|i: int| 0 <= i < s.len() ==> s[i] != '\\' && s[i] != ':'
}

/// The text of a path before its first `/`: all of it when it has none.
pub open spec fn first_component(s: Seq<char>) -> Seq<char>
    decreases s.len(),
{
    if s.len() == 0 || s[0] == '/' {
        Seq::empty()
    } else {
        seq![s[0]] + first_component(s.skip(1))
    }
}

/// `Path::starts_with` of the standard library: whether `base` is a leading
/// run of whole components of `path`. Stated here: a path begins with
/// itself, and with the empty path (no components); and where `base` holds
/// no separator or drive colon and `path` no backslash or drive colon, `base`
/// is one component (none when empty) and the first component of `path` is
/// its text before the first `/` (a root when that text is empty), so `base`
/// is a leading run exactly when it is empty or that text. What it answers
/// otherwise is not stated: that depends on the platform's path syntax.
#[verifier::external_body]
fn path_starts_with(path: &str, base: &str) -> (res: bool)
    ensures
        base@ == path@ ==> res,
        base@.len() == 0 ==> res,
        single_component(base@) && slash_separated(path@) ==> res == (base@.len() == 0 || base@ == first_component(
            path@,
        )),
{
    std::path::Path::new(path).starts_with(base)
}

/// What can be said of whether `path` lies under one of the search path
/// `entries` whatever the platform: yes when an entry is the path itself or
/// empty (no components); no when there are no entries; when no entry holds
/// a separator or a drive colon and the path no backslash or drive colon,
/// yes exactly when an entry is the path's first component; else it is left
/// to the platform.
pub open spec fn under_answer(path: Seq<char>, entries: Seq<String>) -> Option<bool> {
    if exists|k: int| 0 <= k < entries.len() && ((#[trigger] entries[k])@ == path || entries[k]@.len() == 0) {
        Some(true)
    } else if entries.len() == 0 {
        Some(false)
    } else if slash_separated(path) && forall|k: int| 0 <= k < entries.len() ==> single_component(#[trigger] entries[k]@) {
        Some(exists|k: int| 0 <= k < entries.len() && (#[trigger] entries[k])@ == first_component(path))
    } else {
        None
    }
}

/// Whether `path` lies under one of the entries of the search path, the
/// entries tried in order: always when no search path is set; else as
/// [`under_answer`] says where it can be said, so never when the search
/// path has no entries and always when one of its entries is the path
/// itself.
pub fn under_search_path(path: &str, search_path: Option<&Vec<String>>) -> (res: bool)
    ensures
        search_path is None ==> res,
        search_path matches Some(entries) && entries@.len() == 0 ==> !res,
        search_path matches Some(entries) && (exists|i: int| 0 <= i < entries@.len() && (#[trigger] entries@[i])@ == path@)
            ==> res,
        search_path matches Some(entries) ==> (under_answer(path@, entries@) matches Some(b) ==> res == b),
{
    match search_path {
        None => true,
        Some(entries) => {
            let mut i: usize = 0;
            while i < entries.len()
                invariant
                    i <= entries@.len(),
                    search_path matches Some(e) && e@ == entries@,
                    forall|k: int| 0 <= k < i ==> (#[trigger] entries@[k])@ != path@ && entries@[k]@.len() != 0,
                    slash_separated(path@) && (forall|k: int|
                        0 <= k < entries@.len() ==> single_component(#[trigger] entries@[k]@)) ==> forall|k: int|
                        0 <= k < i ==> (#[trigger] entries@[k])@ != first_component(path@),
                decreases entries@.len() - i,
            {
                if path_starts_with(path, entries[i].as_str()) {
                    proof {
                        if slash_separated(path@) && (forall|k: int|
                            0 <= k < entries@.len() ==> single_component(#[trigger] entries@[k]@)) {
                            assert(single_component(entries@[i as int]@));
                        }
                    }
                    return true;
                }
                i = i + 1;
            }
            proof {
                assert(!(exists|k: int|
                    0 <= k < entries@.len() && ((#[trigger] entries@[k])@ == path@ || entries@[k]@.len() == 0)));
                if slash_separated(path@) && (forall|k: int|
                    0 <= k < entries@.len() ==> single_component(#[trigger] entries@[k]@)) {
                    assert(!(exists|k: int| 0 <= k < entries@.len() && (#[trigger] entries@[k])@ == first_component(path@)));
                }
            }
            false
        },
    }
}

/// For each registry entry, whether the interpreter constraints admit the
/// version it gives (always when it gives none), and whether its path lies
/// under the search path (always when it has none).
pub fn registry_checks(
    constraints: &InterpreterConstraints,
    entries: &Vec<RegistryPython>,
    search_path: Option<&Vec<String>>,
) -> (res: (Vec<bool>, Vec<bool>))
    ensures
        res.0@.len() == entries@.len(),
        res.1@.len() == entries@.len(),
        forall|i: int|
            0 <= i < entries@.len() ==> (match (#[trigger] entries@[i]).sys_version {
                Some(t) => registry_version(t@) is None,
                None => true,
            }) ==> res.0@[i],
        forall|i: int|
            0 <= i < entries@.len() ==> ((#[trigger] entries@[i]).sys_version matches Some(t) ==> (registry_version(
                t@,
            ) matches Some(mv) ==> res.0@[i] == (constraints.0@.len() == 0 || exists|c: int|
                0 <= c < constraints.0@.len() && constraint_admits(#[trigger] constraints.0@[c], mv.0, mv.1)))),
        forall|i: int| 0 <= i < entries@.len() ==> (#[trigger] entries@[i]).path is None ==> res.1@[i],
        search_path is None ==> forall|i: int| 0 <= i < entries@.len() ==> #[trigger] res.1@[i],
        forall|i: int|
            0 <= i < entries@.len() ==> ((#[trigger] entries@[i]).path matches Some(p) ==> (search_path matches Some(
                s,
            ) ==> (under_answer(p@, s@) matches Some(b) ==> res.1@[i] == b))),
{
    let mut admitted: Vec<bool> = Vec::new();
    let mut under: Vec<bool> = Vec::new();
    let mut i: usize = 0;
    while i < entries.len()
        invariant
            i <= entries@.len(),
            admitted@.len() == i,
            under@.len() == i,
            forall|j: int|
                0 <= j < i ==> (match (#[trigger] entries@[j]).sys_version {
                    Some(t) => registry_version(t@) is None,
                    None => true,
                }) ==> admitted@[j],
            forall|j: int|
                0 <= j < i ==> ((#[trigger] entries@[j]).sys_version matches Some(t) ==> (registry_version(
                    t@,
                ) matches Some(mv) ==> admitted@[j] == (constraints.0@.len() == 0 || exists|c: int|
                    0 <= c < constraints.0@.len() && constraint_admits(#[trigger] constraints.0@[c], mv.0, mv.1)))),
            forall|j: int| 0 <= j < i ==> (#[trigger] entries@[j]).path is None ==> under@[j],
            search_path is None ==> forall|j: int| 0 <= j < i ==> #[trigger] under@[j],
            forall|j: int|
                0 <= j < i ==> ((#[trigger] entries@[j]).path matches Some(p) ==> (search_path matches Some(
                    s,
                ) ==> (under_answer(p@, s@) matches Some(b) ==> under@[j] == b))),
        decreases entries@.len() - i,
    {
        let e = &entries[i];
        let version = match &e.sys_version {
            Some(t) => parse_registry_version(t.as_str()),
            None => None,
        };
        let a = match version {
            Some((major, minor)) => constraints.contains_version(major, minor),
            None => true,
        };
        let u = match &e.path {
            Some(p) => under_search_path(p.as_str(), search_path),
            None => true,
        };
        admitted.push(a);
        under.push(u);
        i = i + 1;
    }
    (admitted, under)
}

/// The candidates at the known interpreters' paths, in order.
pub fn candidates_of(paths: &Vec<String>) -> (cands: Vec<Candidate>)
    ensures
        cands@.len() == paths@.len(),
        forall|i: int| 0 <= i < paths@.len() ==> (#[trigger] cands@[i]).path@ == paths@[i]@,
{
    let mut cands: Vec<Candidate> = Vec::new();
    let mut i: usize = 0;
    while i < paths.len()
        invariant
            i <= paths@.len(),
            cands@.len() == i,
            forall|j: int| 0 <= j < i ==> (#[trigger] cands@[j]).path@ == paths@[j]@,
        decreases paths@.len() - i,
    {
        cands.push(Candidate::new(paths[i].clone()));
        i = i + 1;
    }
    cands
}

/// Whether two lists of positions share none.
pub open spec fn disjoint(a: Seq<usize>, b: Seq<usize>) -> bool {
    forall|x: usize| !(a.contains(x) && b.contains(x))
}

/// Whether every position of `a` is one of `b`.
pub open spec fn within(a: Seq<usize>, b: Seq<usize>) -> bool {
    forall|x: usize| a.contains(x) ==> b.contains(x)
}

/// Whether a position is listed in some entry of a table of versions.
pub open spec fn in_table(v: Seq<((u8, u8), Seq<usize>)>, x: usize) -> bool {
    exists|e: int| 0 <= e < v.len() && (#[trigger] v[e]).1.contains(x)
}

/// Whether the known interpreters are listed once each: no list repeats a
/// position, and no position is in two lists (of two versions, or of a
/// version and the explicit ones).
pub open spec fn listed_once(versioned: Seq<((u8, u8), Seq<usize>)>, explicit: Seq<usize>) -> bool {
    &&& explicit.no_duplicates()
    &&& forall|e: int| 0 <= e < versioned.len() ==> (#[trigger] versioned[e]).1.no_duplicates()
    &&& forall|e1: int, e2: int|
        0 <= e1 < versioned.len() && 0 <= e2 < versioned.len() && e1 != e2 ==> disjoint(
            #[trigger] versioned[e1].1,
            #[trigger] versioned[e2].1,
        )
    &&& forall|e: int| 0 <= e < versioned.len() ==> disjoint(#[trigger] versioned[e].1, explicit)
}

proof fn lemma_concat_no_dup(a: Seq<usize>, b: Seq<usize>)
    requires
        a.no_duplicates(),
        b.no_duplicates(),
        disjoint(a, b),
    ensures
        (a + b).no_duplicates(),
        forall|x: usize| #[trigger] (a + b).contains(x) <==> a.contains(x) || b.contains(x),
{
    let c = a + b;
    assert forall|i: int, j: int| 0 <= i < c.len() && 0 <= j < c.len() && i != j implies c[i] != c[j] by {
        if i < a.len() && j >= a.len() {
            assert(a.contains(c[i]) && b.contains(c[j]));
            assert(b[j - a.len()] == c[j]);
        } else if j < a.len() && i >= a.len() {
            assert(a.contains(c[j]));
            assert(b[i - a.len()] == c[i]);
        } else if i >= a.len() && j >= a.len() {
            assert(b[i - a.len()] == c[i] && b[j - a.len()] == c[j]);
        }
    }
    assert forall|x: usize| #[trigger] c.contains(x) <==> a.contains(x) || b.contains(x) by {
        if c.contains(x) {
            let i = choose|i: int| 0 <= i < c.len() && #[trigger] c[i] == x;
            if i >= a.len() {
                assert(b[i - a.len()] == x);
            }
        }
        if a.contains(x) {
            let i = choose|i: int| 0 <= i < a.len() && #[trigger] a[i] == x;
            assert(c[i] == x);
        }
        if b.contains(x) {
            let i = choose|i: int| 0 <= i < b.len() && #[trigger] b[i] == x;
            assert(c[i + a.len()] == x);
        }
    }
}

proof fn lemma_split(
    cands: Seq<Candidate>,
    ps: Seq<usize>,
    pex_python: Option<Seq<char>>,
    stem: Seq<char>,
    n: nat,
)
    requires
        n <= ps.len(),
        ps.no_duplicates(),
    ensures
        ({
            let (yes, no) = split_matching(cands, ps, pex_python, stem, n);
            &&& yes.no_duplicates()
            &&& no.no_duplicates()
            &&& disjoint(yes, no)
            &&& within(yes, ps)
            &&& within(no, ps)
            &&& forall|x: usize| #[trigger] yes.contains(x) ==> ps.take(n as int).contains(x)
            &&& forall|x: usize| #[trigger] no.contains(x) ==> ps.take(n as int).contains(x)
        }),
    decreases n,
{
    if n > 0 {
        lemma_split(cands, ps, pex_python, stem, (n - 1) as nat);
        let (yes0, no0) = split_matching(cands, ps, pex_python, stem, (n - 1) as nat);
        let (yes, no) = split_matching(cands, ps, pex_python, stem, n);
        let p = ps[n - 1];
        assert(!ps.take(n - 1).contains(p)) by {
            if ps.take(n - 1).contains(p) {
                let i = choose|i: int| 0 <= i < n - 1 && #[trigger] ps.take(n - 1)[i] == p;
                assert(ps[i] == p);
            }
        }
        assert forall|x: usize| ps.take(n - 1).contains(x) implies ps.take(n as int).contains(x) by {
            let i = choose|i: int| 0 <= i < n - 1 && #[trigger] ps.take(n - 1)[i] == x;
            assert(ps.take(n as int)[i] == x);
        }
        assert(ps.take(n as int)[n - 1] == p);
        assert(ps.contains(p)) by {
            assert(ps[n - 1] == p);
        }
        if matches(cands[p as int], pex_python, stem) {
            assert(yes == yes0.push(p) && no == no0);
            assert forall|x: usize| #[trigger] yes.contains(x) implies x == p || yes0.contains(x) by {
                let i = choose|i: int| 0 <= i < yes.len() && #[trigger] yes[i] == x;
                if i < yes0.len() {
                    assert(yes0[i] == x);
                }
            }
            assert forall|i: int, j: int| 0 <= i < yes.len() && 0 <= j < yes.len() && i != j implies yes[i] != yes[j] by {
                if i < yes0.len() && j < yes0.len() {
                } else if i < yes0.len() {
                    assert(yes0.contains(yes[i]));
                } else if j < yes0.len() {
                    assert(yes0.contains(yes[j]));
                }
            }
        } else {
            assert(yes == yes0 && no == no0.push(p));
            assert forall|x: usize| #[trigger] no.contains(x) implies x == p || no0.contains(x) by {
                let i = choose|i: int| 0 <= i < no.len() && #[trigger] no[i] == x;
                if i < no0.len() {
                    assert(no0[i] == x);
                }
            }
            assert forall|i: int, j: int| 0 <= i < no.len() && 0 <= j < no.len() && i != j implies no[i] != no[j] by {
                if i < no0.len() && j < no0.len() {
                } else if i < no0.len() {
                    assert(no0.contains(no[i]));
                } else if j < no0.len() {
                    assert(no0.contains(no[j]));
                }
            }
        }
        assert forall|x: usize| #[trigger] ps.take(n as int).contains(x) implies ps.contains(x) by {
            let i = choose|i: int| 0 <= i < n && #[trigger] ps.take(n as int)[i] == x;
            assert(ps[i] == x);
        }
    }
}

/// The invariant of the versioned pass: what was tried and what is left
/// are listed once each, and all of it was known.
pub open spec fn pass_inv(
    v0: Seq<((u8, u8), Seq<usize>)>,
    explicit: Seq<usize>,
    tried: Seq<usize>,
    left: Seq<((u8, u8), Seq<usize>)>,
) -> bool {
    &&& tried.no_duplicates()
    &&& listed_once(left, explicit)
    &&& forall|e: int| 0 <= e < left.len() ==> disjoint(tried, #[trigger] left[e].1)
    &&& forall|x: usize| #[trigger] tried.contains(x) ==> in_table(v0, x)
    &&& forall|e: int, x: usize| 0 <= e < left.len() && #[trigger] left[e].1.contains(x) ==> in_table(v0, x)
    &&& left.len() == v0.len()
}

proof fn lemma_versioned_pass(
    cands: Seq<Candidate>,
    specs: Seq<PythonBinarySpec>,
    v0: Seq<((u8, u8), Seq<usize>)>,
    explicit: Seq<usize>,
    pex_python: Option<Seq<char>>,
    n: nat,
)
    requires
        listed_once(v0, explicit),
        n <= specs.len(),
    ensures
        ({
            let (tried, left) = versioned_pass(cands, specs, v0, pex_python, n);
            pass_inv(v0, explicit, tried, left)
        }),
    decreases n,
{
    if n == 0 {
        assert forall|e: int, x: usize| 0 <= e < v0.len() && #[trigger] v0[e].1.contains(x) implies in_table(v0, x) by {}
    } else {
        lemma_versioned_pass(cands, specs, v0, explicit, pex_python, (n - 1) as nat);
        let (tried, left) = versioned_pass(cands, specs, v0, pex_python, (n - 1) as nat);
        let spec = specs[n - 1];
        let key = (spec.major, spec.minor);
        match entry_from(left, key, 0) {
            None => {},
            Some(k) => {
                lemma_entry_from(left, key, 0);
                let ps = left[k as int].1;
                let stem = spec_stem(spec.name);
                lemma_split(cands, ps, pex_python, stem, ps.len());
                let (yes, no) = split_matching(cands, ps, pex_python, stem, ps.len());
                let tried2 = tried + yes;
                let left2 = left.update(k as int, (key, no));
                assert(disjoint(tried, yes)) by {
                    assert(disjoint(tried, left[k as int].1));
                }
                lemma_concat_no_dup(tried, yes);
                assert forall|e: int| 0 <= e < left2.len() implies (#[trigger] left2[e]).1.no_duplicates() by {
                    if e != k {
                        assert(left2[e] == left[e]);
                    }
                }
                assert forall|e1: int, e2: int|
                    0 <= e1 < left2.len() && 0 <= e2 < left2.len() && e1 != e2 implies disjoint(
                    #[trigger] left2[e1].1,
                    #[trigger] left2[e2].1,
                ) by {
                    assert(disjoint(left[e1].1, left[e2].1));
                }
                assert forall|e: int| 0 <= e < left2.len() implies disjoint(#[trigger] left2[e].1, explicit) by {
                    assert(disjoint(left[e].1, explicit));
                }
                assert forall|e: int| 0 <= e < left2.len() implies disjoint(tried2, #[trigger] left2[e].1) by {
                    assert(disjoint(tried, left[e].1));
                    if e != k {
                        assert(disjoint(left[k as int].1, left[e].1));
                    }
                }
                assert forall|x: usize| #[trigger] tried2.contains(x) implies in_table(v0, x) by {
                    if yes.contains(x) {
                        assert(left[k as int].1.contains(x));
                    }
                }
                assert forall|e: int, x: usize| 0 <= e < left2.len() && #[trigger] left2[e].1.contains(x) implies in_table(
                    v0,
                    x,
                ) by {
                    if e == k {
                        assert(left[k as int].1.contains(x));
                    } else {
                        assert(left2[e] == left[e]);
                    }
                }
            },
        }
    }
}

proof fn lemma_entry_from(v: Seq<((u8, u8), Seq<usize>)>, key: (u8, u8), i: nat)
    ensures
        entry_from(v, key, i) matches Some(k) ==> k < v.len(),
    decreases v.len() - i,
{
    if i < v.len() && v[i as int].0 != key {
        lemma_entry_from(v, key, i + 1);
    }
}

proof fn lemma_explicit_pass(cands: Seq<Candidate>, explicit: Seq<usize>, stems: Seq<Seq<char>>, n: nat)
    requires
        explicit.no_duplicates(),
        n <= stems.len(),
    ensures
        ({
            let (tried, left) = explicit_pass(cands, explicit, stems, n);
            &&& tried.no_duplicates()
            &&& left.no_duplicates()
            &&& disjoint(tried, left)
            &&& within(tried, explicit)
            &&& within(left, explicit)
        }),
    decreases n,
{
    if n > 0 {
        lemma_explicit_pass(cands, explicit, stems, (n - 1) as nat);
        let (tried, left) = explicit_pass(cands, explicit, stems, (n - 1) as nat);
        lemma_split(cands, left, None, stems[n - 1], left.len());
        let (yes, no) = split_matching(cands, left, None, stems[n - 1], left.len());
        lemma_concat_no_dup(tried, yes);
    }
}

/// The registry's and the caller's interpreters are tried once each, and
/// only they are: when each is listed once, the try order repeats none, and
/// holds only listed ones.
pub proof fn law_try_order_once(
    cands: Seq<Candidate>,
    specs: Seq<PythonBinarySpec>,
    versioned: Seq<((u8, u8), Seq<usize>)>,
    explicit: Seq<usize>,
    pex_python: Option<Seq<char>>,
)
    requires
        listed_once(versioned, explicit),
    ensures
        spec_try_order(cands, specs, versioned, explicit, pex_python).no_duplicates(),
        forall|x: usize|
            #[trigger] spec_try_order(cands, specs, versioned, explicit, pex_python).contains(x) ==> explicit.contains(x)
                || in_table(versioned, x),
{
    lemma_versioned_pass(cands, specs, versioned, explicit, pex_python, specs.len());
    let vt = versioned_pass(cands, specs, versioned, pex_python, specs.len()).0;
    let et = match pex_python {
        Some(_) => split_matching(cands, explicit, pex_python, Seq::empty(), explicit.len()).0,
        None => {
            let stems = search_stems(specs, pex_python, explicit);
            explicit_pass(cands, explicit, stems, stems.len()).0
        },
    };
    match pex_python {
        Some(_) => {
            lemma_split(cands, explicit, pex_python, Seq::empty(), explicit.len());
        },
        None => {
            let stems = search_stems(specs, pex_python, explicit);
            lemma_explicit_pass(cands, explicit, stems, stems.len());
        },
    }
    assert(within(et, explicit));
    assert(disjoint(vt, et)) by {
        assert forall|x: usize| !(vt.contains(x) && et.contains(x)) by {
            if vt.contains(x) && et.contains(x) {
                assert(in_table(versioned, x));
                let e = choose|e: int| 0 <= e < versioned.len() && (#[trigger] versioned[e]).1.contains(x);
                assert(disjoint(versioned[e].1, explicit));
                assert(explicit.contains(x));
            }
        }
    }
    lemma_concat_no_dup(vt, et);
}

/// Whether a candidate is one of those looked for: with the file name
/// `PEX_PYTHON` names, when set; else with a file stem that begins with the
/// stem of one of the binary specs.
pub open spec fn wanted(c: Candidate, pex_python: Option<Seq<char>>, specs: Seq<PythonBinarySpec>) -> bool {
    match pex_python {
        Some(n) => opt_text(c.file_name) == Some(n),
        None => exists|k: int|
            0 <= k < specs.len() && #[trigger] matches(c, None, spec_stem(specs[k].name)),
    }
}

proof fn lemma_split_yes_match(
    cands: Seq<Candidate>,
    ps: Seq<usize>,
    pex_python: Option<Seq<char>>,
    stem: Seq<char>,
    n: nat,
)
    ensures
        forall|i: int|
            0 <= i < split_matching(cands, ps, pex_python, stem, n).0.len() ==> matches(
                cands[#[trigger] split_matching(cands, ps, pex_python, stem, n).0[i] as int],
                pex_python,
                stem,
            ),
    decreases n,
{
    if n > 0 {
        lemma_split_yes_match(cands, ps, pex_python, stem, (n - 1) as nat);
        let before = split_matching(cands, ps, pex_python, stem, (n - 1) as nat).0;
        let yes = split_matching(cands, ps, pex_python, stem, n).0;
        assert forall|i: int| 0 <= i < yes.len() implies matches(cands[#[trigger] yes[i] as int], pex_python, stem) by {
            if i < before.len() {
                assert(yes[i] == before[i]);
            }
        }
    }
}

proof fn lemma_spec_stems_from(specs: Seq<PythonBinarySpec>, n: nat, i: int)
    requires
        n <= specs.len(),
        0 <= i < spec_stems(specs, n).len(),
    ensures
        exists|k: int| 0 <= k < n && spec_stem(specs[k].name) == #[trigger] spec_stems(specs, n)[i],
    decreases n,
{
    let before = spec_stems(specs, (n - 1) as nat);
    if i < before.len() {
        lemma_spec_stems_from(specs, (n - 1) as nat, i);
        let k = choose|k: int| 0 <= k < n - 1 && spec_stem(specs[k].name) == #[trigger] before[i];
        if !before.contains(spec_stem(specs[n - 1].name)) {
            assert(before.push(spec_stem(specs[n - 1].name))[i] == before[i]);
        }
        assert(spec_stem(specs[k].name) == spec_stems(specs, n)[i]);
    } else {
        assert(spec_stems(specs, n)[i] == spec_stem(specs[n - 1].name));
    }
}

proof fn lemma_versioned_tried_wanted(
    cands: Seq<Candidate>,
    specs: Seq<PythonBinarySpec>,
    versioned: Seq<((u8, u8), Seq<usize>)>,
    pex_python: Option<Seq<char>>,
    n: nat,
)
    requires
        n <= specs.len(),
    ensures
        forall|i: int|
            0 <= i < versioned_pass(cands, specs, versioned, pex_python, n).0.len() ==> wanted(
                cands[#[trigger] versioned_pass(cands, specs, versioned, pex_python, n).0[i] as int],
                pex_python,
                specs,
            ),
    decreases n,
{
    if n > 0 {
        lemma_versioned_tried_wanted(cands, specs, versioned, pex_python, (n - 1) as nat);
        let (tried, left) = versioned_pass(cands, specs, versioned, pex_python, (n - 1) as nat);
        let spec = specs[n - 1];
        let key = (spec.major, spec.minor);
        match entry_from(left, key, 0) {
            None => {},
            Some(k) => {
                let ps = left[k as int].1;
                let stem = spec_stem(spec.name);
                lemma_split_yes_match(cands, ps, pex_python, stem, ps.len());
                let yes = split_matching(cands, ps, pex_python, stem, ps.len()).0;
                let t = tried + yes;
                assert forall|i: int| 0 <= i < t.len() implies wanted(cands[#[trigger] t[i] as int], pex_python, specs) by {
                    if i < tried.len() {
                        assert(t[i] == tried[i]);
                    } else {
                        let x = t[i];
                        assert(x == yes[i - tried.len()]);
                        assert(matches(cands[x as int], pex_python, stem));
                        if pex_python is None {
                            assert(matches(cands[x as int], None, spec_stem(specs[n - 1].name)));
                        }
                    }
                }
            },
        }
    }
}

proof fn lemma_explicit_tried_wanted(
    cands: Seq<Candidate>,
    explicit: Seq<usize>,
    specs: Seq<PythonBinarySpec>,
    n: nat,
)
    requires
        n <= spec_stems(specs, specs.len()).len(),
    ensures
        forall|i: int|
            0 <= i < explicit_pass(cands, explicit, spec_stems(specs, specs.len()), n).0.len() ==> wanted(
                cands[#[trigger] explicit_pass(cands, explicit, spec_stems(specs, specs.len()), n).0[i] as int],
                None,
                specs,
            ),
    decreases n,
{
    if n > 0 {
        let stems = spec_stems(specs, specs.len());
        lemma_explicit_tried_wanted(cands, explicit, specs, (n - 1) as nat);
        let (tried, left) = explicit_pass(cands, explicit, stems, (n - 1) as nat);
        lemma_split_yes_match(cands, left, None, stems[n - 1], left.len());
        lemma_spec_stems_from(specs, specs.len(), n - 1);
        let k = choose|k: int| 0 <= k < specs.len() && spec_stem(specs[k].name) == #[trigger] stems[n - 1];
        let yes = split_matching(cands, left, None, stems[n - 1], left.len()).0;
        let t = tried + yes;
        assert forall|i: int| 0 <= i < t.len() implies wanted(cands[#[trigger] t[i] as int], None, specs) by {
            if i < tried.len() {
                assert(t[i] == tried[i]);
            } else {
                let x = t[i];
                assert(x == yes[i - tried.len()]);
                assert(matches(cands[x as int], None, spec_stem(specs[k].name)));
            }
        }
    }
}

/// Every interpreter of the registry or of the caller that is tried is one
/// looked for: named as `PEX_PYTHON` says, when set; else with a file stem
/// that begins with the stem of one of the binary specs.
pub proof fn law_tried_are_wanted(
    cands: Seq<Candidate>,
    specs: Seq<PythonBinarySpec>,
    versioned: Seq<((u8, u8), Seq<usize>)>,
    explicit: Seq<usize>,
    pex_python: Option<Seq<char>>,
)
    ensures
        forall|i: int|
            0 <= i < spec_try_order(cands, specs, versioned, explicit, pex_python).len() ==> wanted(
                cands[#[trigger] spec_try_order(cands, specs, versioned, explicit, pex_python)[i] as int],
                pex_python,
                specs,
            ),
{
    lemma_versioned_tried_wanted(cands, specs, versioned, pex_python, specs.len());
    let vt = versioned_pass(cands, specs, versioned, pex_python, specs.len()).0;
    let et = match pex_python {
        Some(_) => split_matching(cands, explicit, pex_python, Seq::empty(), explicit.len()).0,
        None => {
            let stems = search_stems(specs, pex_python, explicit);
            explicit_pass(cands, explicit, stems, stems.len()).0
        },
    };
    match pex_python {
        Some(_) => {
            lemma_split_yes_match(cands, explicit, pex_python, Seq::empty(), explicit.len());
        },
        None => {
            if explicit.len() > 0 {
                lemma_explicit_tried_wanted(cands, explicit, specs, spec_stems(specs, specs.len()).len());
            } else {
                assert(search_stems(specs, pex_python, explicit).len() == 0);
            }
        },
    }
    let t = vt + et;
    assert forall|i: int| 0 <= i < t.len() implies wanted(cands[#[trigger] t[i] as int], pex_python, specs) by {
        if i < vt.len() {
            assert(t[i] == vt[i]);
        } else {
            assert(t[i] == et[i - vt.len()]);
        }
    }
}

} // verus!
