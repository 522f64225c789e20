//! pyenv shims: which Python a shim stands for, and the versions pyenv has
//! activated, in the order they are tried.
//!
//! Finding the version files and resolving the chosen interpreter's path is
//! left to the caller.

use vstd::prelude::*;

use crate::implementation::Implementation;
use crate::tags::views;
use crate::text::{chars_of, char_seqs, has_prefix, spec_trim, split_all, split_chars, starts_with, string_of, strip_prefix, trim};

verus! {

/// A pyenv shim for a Python: its implementation and the version its name
/// gives after the `python` or `pypy` stem (possibly empty).
pub struct PythonShim {
    pub implementation: Implementation,
    pub version: String,
}

/// What a shim's file name says: `python<version>` is a CPython shim,
/// `pypy<version>` a PyPy one; any other name is no Python shim.
pub open spec fn spec_shim(file_name: Seq<char>) -> Option<(Implementation, Seq<char>)> {
    if has_prefix(file_name, "python"@) {
        Some((Implementation::CPython, file_name.skip(6)))
    } else if has_prefix(file_name, "pypy"@) {
        Some((Implementation::PyPy, file_name.skip(4)))
    } else {
        None
    }
}

impl PythonShim {
    /// The Python shim a file name stands for, as [`spec_shim`] reads it.
    pub fn of_file_name(file_name: &str) -> (res: Option<PythonShim>)
        ensures
            match spec_shim(file_name@) {
                Some((i, v)) => res matches Some(s) && s.implementation == i && s.version@ == v,
                None => res is None,
            },
    {
        proof {
            reveal_strlit("python");
            reveal_strlit("pypy");
        }
        let chars = chars_of(file_name);
        match strip_prefix(chars.as_slice(), "python") {
            Some(rest) => Some(PythonShim { implementation: Implementation::CPython, version: string_of(rest.as_slice()) }),
            None => match strip_prefix(chars.as_slice(), "pypy") {
                Some(rest) => Some(PythonShim { implementation: Implementation::PyPy, version: string_of(rest.as_slice()) }),
                None => None,
            },
        }
    }
}

/// Whether an activated version `version` may serve a shim: for a CPython
/// shim, the version (without a `pypy` prefix) begins with the shim's
/// version; for a PyPy shim, the version has a `pypy` prefix and what
/// follows it begins with the shim's version.
pub open spec fn spec_version_serves(implementation: Implementation, shim_version: Seq<char>, version: Seq<char>) -> bool {
    let unprefixed = if has_prefix(version, "pypy"@) {
        Some(version.skip(4))
    } else {
        None
    };
    match implementation {
        Implementation::CPython => has_prefix(
            match unprefixed {
                Some(v) => v,
                None => version,
            },
            shim_version,
        ),
        Implementation::PyPy => match unprefixed {
            Some(v) => has_prefix(v, shim_version),
            None => false,
        },
    }
}

/// The positions among the first `n` activated versions of those that may
/// serve a shim, in order: the order they are tried in.
pub open spec fn spec_versions_to_try(
    implementation: Implementation,
    shim_version: Seq<char>,
    versions: Seq<Seq<char>>,
    n: nat,
) -> Seq<usize>
    decreases n,
{
    if n == 0 {
        Seq::empty()
    } else {
        let before = spec_versions_to_try(implementation, shim_version, versions, (n - 1) as nat);
        if spec_version_serves(implementation, shim_version, versions[n - 1]) {
            before.push((n - 1) as usize)
        } else {
            before
        }
    }
}

impl PythonShim {
    /// Whether the activated version `version` may serve the shim, as
    /// [`spec_version_serves`] decides.
    pub fn version_serves(&self, version: &str) -> (res: bool)
        ensures
            res == spec_version_serves(self.implementation, self.version@, version@),
    {
        proof {
            reveal_strlit("pypy");
        }
        let chars = chars_of(version);
        let wanted = chars_of(self.version.as_str());
        let unprefixed = strip_prefix(chars.as_slice(), "pypy");
        match self.implementation {
            Implementation::CPython => match unprefixed {
                Some(v) => starts_with(v.as_slice(), wanted.as_slice()),
                None => starts_with(chars.as_slice(), wanted.as_slice()),
            },
            Implementation::PyPy => match unprefixed {
                Some(v) => starts_with(v.as_slice(), wanted.as_slice()),
                None => false,
            },
        }
    }

    /// The positions of the activated versions that may serve the shim, in
    /// the order they are tried.
    pub fn versions_to_try(&self, versions: &Vec<String>) -> (res: Vec<usize>)
        ensures
            res@ == spec_versions_to_try(self.implementation, self.version@, views(versions@), versions@.len()),
    {
        let mut res: Vec<usize> = Vec::new();
        let mut i: usize = 0;
        while i < versions.len()
            invariant
                i <= versions@.len(),
                res@ == spec_versions_to_try(self.implementation, self.version@, views(versions@), i as nat),
            decreases versions@.len() - i,
        {
            assert(views(versions@)[i as int] == versions@[i as int]@);
            if self.version_serves(versions[i].as_str()) {
                res.push(i);
            }
            i = i + 1;
        }
        res
    }
}

/// The versions `PYENV_VERSION` activates: its value split at each `:`.
pub fn shell_versions(value: &str) -> (versions: Vec<String>)
    ensures
        views(versions@) == split_all(value@, ':'),
{
    let chars = chars_of(value);
    let parts = split_chars(chars.as_slice(), ':');
    let mut versions: Vec<String> = Vec::new();
    let mut i: usize = 0;
    while i < parts.len()
        invariant
            i <= parts@.len(),
            views(versions@) == char_seqs(parts@).take(i as int),
        decreases parts@.len() - i,
    {
        let s = string_of(parts[i].as_slice());
        let ghost before = views(versions@);
        versions.push(s);
        assert(views(versions@) =~= before.push(parts@[i as int]@));
        assert(char_seqs(parts@).take(i + 1) =~= char_seqs(parts@).take(i as int).push(parts@[i as int]@));
        i = i + 1;
    }
    assert(char_seqs(parts@).take(parts@.len() as int) =~= char_seqs(parts@));
    versions
}

/// The lines of a text as `BufRead::lines` reads them: split at each `\n`,
/// with no last line when the text ends with `\n`, and a `\r` that ends a
/// line dropped.
pub open spec fn spec_lines(text: Seq<char>) -> Seq<Seq<char>> {
    let parts = split_all(text, '\n');
    let parts = if text.len() > 0 && text.last() == '\n' {
        parts.drop_last()
    } else if text.len() == 0 {
        Seq::empty()
    } else {
        parts
    };
    parts.map_values(|l: Seq<char>| if l.len() > 0 && l.last() == '\r' {
        l.drop_last()
    } else {
        l
    })
}

/// The versions a version file activates from the first `n` of its lines:
/// each line trimmed, leaving out those that begin with `#` (comments).
pub open spec fn spec_read_versions(lines: Seq<Seq<char>>, n: nat) -> Seq<Seq<char>>
    decreases n,
{
    if n == 0 {
        Seq::empty()
    } else {
        let before = spec_read_versions(lines, (n - 1) as nat);
        let t = spec_trim(lines[n - 1]);
        if t.len() > 0 && t[0] == '#' {
            before
        } else {
            before.push(t)
        }
    }
}

/// The versions a version file with contents `text` activates, as
/// [`spec_read_versions`] reads its lines.
pub fn read_versions(text: &str) -> (versions: Vec<String>)
    ensures
        views(versions@) == spec_read_versions(spec_lines(text@), spec_lines(text@).len()),
{
    let chars = chars_of(text);
    let parts = split_chars(chars.as_slice(), '\n');
    let ghost lines = spec_lines(text@);
    let count: usize = if chars.len() > 0 && chars[chars.len() - 1] == '\n' {
        parts.len() - 1
    } else if chars.len() == 0 {
        0
    } else {
        parts.len()
    };
    proof {
        let ps = split_all(text@, '\n');
        assert(ps.len() >= 1);
        assert(char_seqs(parts@).len() == parts@.len());
        assert(lines.len() == count);
        assert forall|k: int| 0 <= k < count implies #[trigger] lines[k] == (if parts@[k]@.len() > 0
            && parts@[k]@.last() == '\r' {
            parts@[k]@.drop_last()
        } else {
            parts@[k]@
        }) by {
            assert(char_seqs(parts@)[k] == parts@[k]@);
        }
    }
    let mut versions: Vec<String> = Vec::new();
    let mut i: usize = 0;
    while i < count
        invariant
            i <= count,
            count <= parts@.len(),
            lines == spec_lines(text@),
            lines.len() == count,
            char_seqs(parts@) == split_all(text@, '\n'),
            forall|k: int| 0 <= k < count ==> #[trigger] lines[k] == (if parts@[k]@.len() > 0 && parts@[k]@.last() == '\r' {
                parts@[k]@.drop_last()
            } else {
                parts@[k]@
            }),
            views(versions@) == spec_read_versions(lines, i as nat),
        decreases count - i,
    {
        let part = &parts[i];
        let line: Vec<char> = if part.len() > 0 && part[part.len() - 1] == '\r' {
            crate::text::sub_chars(part.as_slice(), 0, part.len() - 1)
        } else {
            crate::text::sub_chars(part.as_slice(), 0, part.len())
        };
        assert(line@ == lines[i as int]);
        let t = trim(line.as_slice());
        if !(t.len() > 0 && t[0] == '#') {
            let ghost before = views(versions@);
            versions.push(string_of(t.as_slice()));
            assert(views(versions@) =~= before.push(t@));
        }
        i = i + 1;
    }
    versions
}

} // verus!
