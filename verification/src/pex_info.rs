//! The settings a PEX-INFO file records as words: how a venv PEX puts its
//! `bin` directory on the `PATH`, how it inherits `sys.path`, and which
//! interpreter it prefers.

use vstd::prelude::*;

use crate::constraints::SelectionStrategy;
use crate::text::{chars_of, is_word};

verus! {

/// Why a PEX-INFO word was refused.
#[derive(Copy, Clone, Debug, PartialEq, Eq)]
pub enum PexInfoError {
    /// Not `false`, `prefer` or `fallback`.
    InvalidInheritPath,
    /// Not `oldest` or `newest`.
    InvalidInterpreterSelectionStrategy,
}

/// Where a venv PEX puts its `bin` directory on the `PATH`, if anywhere.
#[derive(Copy, Clone, Debug, PartialEq, Eq)]
pub enum BinPath {
    False,
    Append,
    Prepend,
}

/// The word of a `bin` path setting.
pub open spec fn spec_bin_path_str(b: BinPath) -> Seq<char> {
    match b {
        BinPath::False => "false"@,
        BinPath::Append => "append"@,
        BinPath::Prepend => "prepend"@,
    }
}

impl BinPath {
    /// The word of the setting: `false`, `append` or `prepend`.
    pub fn as_str(&self) -> (s: &'static str)
        ensures
            s@ == spec_bin_path_str(*self),
    {
        match self {
            BinPath::False => "false",
            BinPath::Append => "append",
            BinPath::Prepend => "prepend",
        }
    }
}

/// Whether a PEX inherits the `sys.path` of its interpreter: not at all,
/// before its own entries, or after them.
#[derive(Copy, Clone, Debug, PartialEq, Eq)]
pub enum InheritPath {
    False,
    Prefer,
    Fallback,
}

/// The `sys.path` inheritance that `s` names.
pub open spec fn spec_inherit_path(s: Seq<char>) -> Option<InheritPath> {
    if s == "false"@ {
        Some(InheritPath::False)
    } else if s == "prefer"@ {
        Some(InheritPath::Prefer)
    } else if s == "fallback"@ {
        Some(InheritPath::Fallback)
    } else {
        None
    }
}

impl InheritPath {
    /// Parses `false`, `prefer` or `fallback`.
    pub fn parse(s: &str) -> (res: Result<InheritPath, PexInfoError>)
        ensures
            match res {
                Ok(i) => spec_inherit_path(s@) == Some(i),
                Err(e) => spec_inherit_path(s@) is None && e == PexInfoError::InvalidInheritPath,
            },
    {
        let c = chars_of(s);
        if is_word(c.as_slice(), "false") {
            Ok(InheritPath::False)
        } else if is_word(c.as_slice(), "prefer") {
            Ok(InheritPath::Prefer)
        } else if is_word(c.as_slice(), "fallback") {
            Ok(InheritPath::Fallback)
        } else {
            Err(PexInfoError::InvalidInheritPath)
        }
    }
}

/// Which of the compatible interpreters a PEX prefers.
#[derive(Copy, Clone, Debug, PartialEq, Eq)]
pub enum InterpreterSelectionStrategy {
    Oldest,
    Newest,
}

/// The interpreter selection strategy that `s` names.
pub open spec fn spec_selection_strategy(s: Seq<char>) -> Option<InterpreterSelectionStrategy> {
    if s == "oldest"@ {
        Some(InterpreterSelectionStrategy::Oldest)
    } else if s == "newest"@ {
        Some(InterpreterSelectionStrategy::Newest)
    } else {
        None
    }
}

impl InterpreterSelectionStrategy {
    /// Parses `oldest` or `newest`.
    pub fn parse(s: &str) -> (res: Result<InterpreterSelectionStrategy, PexInfoError>)
        ensures
            match res {
                Ok(i) => spec_selection_strategy(s@) == Some(i),
                Err(e) => spec_selection_strategy(s@) is None && e
                    == PexInfoError::InvalidInterpreterSelectionStrategy,
            },
    {
        let c = chars_of(s);
        if is_word(c.as_slice(), "oldest") {
            Ok(InterpreterSelectionStrategy::Oldest)
        } else if is_word(c.as_slice(), "newest") {
            Ok(InterpreterSelectionStrategy::Newest)
        } else {
            Err(PexInfoError::InvalidInterpreterSelectionStrategy)
        }
    }
}

/// The interpreter search strategy of a recorded selection strategy.
pub open spec fn spec_to_selection(s: InterpreterSelectionStrategy) -> SelectionStrategy {
    match s {
        InterpreterSelectionStrategy::Oldest => SelectionStrategy::Oldest,
        InterpreterSelectionStrategy::Newest => SelectionStrategy::Newest,
    }
}

/// The recorded selection strategy of an interpreter search strategy.
pub open spec fn spec_from_selection(s: SelectionStrategy) -> InterpreterSelectionStrategy {
    match s {
        SelectionStrategy::Oldest => InterpreterSelectionStrategy::Oldest,
        SelectionStrategy::Newest => InterpreterSelectionStrategy::Newest,
    }
}

impl From<InterpreterSelectionStrategy> for SelectionStrategy {
    fn from(value: InterpreterSelectionStrategy) -> (r: SelectionStrategy) {
        match value {
            InterpreterSelectionStrategy::Oldest => SelectionStrategy::Oldest,
            InterpreterSelectionStrategy::Newest => SelectionStrategy::Newest,
        }
    }
}

impl vstd::std_specs::convert::FromSpecImpl<InterpreterSelectionStrategy> for SelectionStrategy {
    open spec fn obeys_from_spec() -> bool {
        true
    }

    open spec fn from_spec(v: InterpreterSelectionStrategy) -> SelectionStrategy {
        spec_to_selection(v)
    }
}

impl From<SelectionStrategy> for InterpreterSelectionStrategy {
    fn from(value: SelectionStrategy) -> (r: InterpreterSelectionStrategy) {
        match value {
            SelectionStrategy::Oldest => InterpreterSelectionStrategy::Oldest,
            SelectionStrategy::Newest => InterpreterSelectionStrategy::Newest,
        }
    }
}

impl vstd::std_specs::convert::FromSpecImpl<SelectionStrategy> for InterpreterSelectionStrategy {
    open spec fn obeys_from_spec() -> bool {
        true
    }

    open spec fn from_spec(v: SelectionStrategy) -> InterpreterSelectionStrategy {
        spec_from_selection(v)
    }
}

/// Converting a selection strategy to the interpreter search strategy and
/// back gives it again, and so does the way round.
pub proof fn law_selection_strategy_round_trip(s: InterpreterSelectionStrategy, t: SelectionStrategy)
    ensures
        spec_from_selection(spec_to_selection(s)) == s,
        spec_to_selection(spec_from_selection(t)) == t,
{
}

/// Whether a PEX zip entry is replaced when a PEX runtime is injected: the
/// bootstrap, the dependencies, the `__pex__` package and `PEX-INFO` (each
/// by prefix), and `__main__.py`.
pub open spec fn spec_replaced_on_inject(entry: Seq<char>) -> bool {
    ||| crate::text::has_prefix(entry, ".bootstrap/"@)
    ||| crate::text::has_prefix(entry, ".deps/"@)
    ||| crate::text::has_prefix(entry, "PEX-INFO"@)
    ||| crate::text::has_prefix(entry, "__pex__/"@)
    ||| entry == "__main__.py"@
}

/// Whether the PEX zip entry `entry` is replaced when a PEX runtime is
/// injected, as [`spec_replaced_on_inject`] says; the others are copied.
pub fn replaced_on_inject(entry: &str) -> (res: bool)
    ensures
        res == spec_replaced_on_inject(entry@),
{
    let chars = crate::text::chars_of(entry);
    let s = chars.as_slice();
    let bootstrap = crate::text::chars_of(".bootstrap/");
    let deps = crate::text::chars_of(".deps/");
    let pex_info = crate::text::chars_of("PEX-INFO");
    let pex = crate::text::chars_of("__pex__/");
    crate::text::starts_with(s, bootstrap.as_slice()) || crate::text::starts_with(s, deps.as_slice())
        || crate::text::starts_with(s, pex_info.as_slice()) || crate::text::starts_with(s, pex.as_slice())
        || crate::text::str_eq(entry, "__main__.py")
}

} // verus!
