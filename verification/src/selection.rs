//! Choosing the interpreter a PEX resolves for: the preferred interpreter
//! when it qualifies, else the candidates in search order, the first that
//! resolves winning.
//!
//! Loading interpreters and resolving for them is outside work; the
//! decisions are a step function from the state and what that work
//! reported to the next state and the work to do next.

use vstd::prelude::*;
use vstd::string::StringExecFns;

use crate::text::{dec, push_decimal};

verus! {

/// An interpreter the selection may resolve for.
#[derive(Copy, Clone, Debug, PartialEq, Eq)]
pub enum Choice {
    /// The interpreter the caller prefers.
    Preferred,
    /// The candidate at this position in search order.
    Candidate(usize),
}

/// Where a selection stands: whether it has begun, the interpreter it is
/// waiting on, how many candidates there are, and how many resolves failed.
#[derive(Copy, Clone, Debug, PartialEq, Eq)]
pub struct ResolveAttempt {
    pub begun: bool,
    pub current: Option<Choice>,
    pub candidates: usize,
    pub failures: usize,
}

/// What the outside work reported.
#[derive(Copy, Clone, Debug, PartialEq, Eq)]
pub enum AttemptEvent {
    /// The selection begins; whether the preferred interpreter was given,
    /// loads, satisfies the constraints and is on the search path.
    Begin { preferred_admitted: bool },
    /// The interpreter waited on: whether it loaded and satisfies the
    /// constraints, and whether resolving for it succeeded.
    Outcome { admitted: bool, resolved: bool },
}

/// What to do next.
#[derive(Copy, Clone, Debug, PartialEq, Eq)]
pub enum Action {
    /// Load the interpreter and, when it qualifies, resolve for it.
    Try(Choice),
    /// Use the interpreter: its resolve succeeded.
    Use(Choice),
    /// No interpreter resolved: report the failures.
    GiveUp,
}

impl ResolveAttempt {
    /// A selection among `candidates` candidates that has not begun.
    pub fn new(candidates: usize) -> (s: ResolveAttempt)
        ensures
            s == (ResolveAttempt { begun: false, current: None, candidates, failures: 0 }),
    {
        ResolveAttempt { begun: false, current: None, candidates, failures: 0 }
    }
}

/// The first candidate at or after `i`, or giving up when there is none.
pub open spec fn spec_from(i: int, candidates: usize) -> Action {
    if 0 <= i < candidates {
        Action::Try(Choice::Candidate(i as usize))
    } else {
        Action::GiveUp
    }
}

/// The interpreter tried after `c`: the first candidate after the preferred
/// one, the next candidate after a candidate.
pub open spec fn spec_after(c: Choice, candidates: usize) -> Action {
    match c {
        Choice::Preferred => spec_from(0, candidates),
        Choice::Candidate(i) => spec_from(i + 1, candidates),
    }
}

/// The state waiting on what `action` tries, if anything.
pub open spec fn spec_waiting(state: ResolveAttempt, action: Action, failures: int) -> ResolveAttempt {
    ResolveAttempt {
        begun: true,
        current: match action {
            Action::Try(c) => Some(c),
            _ => None,
        },
        candidates: state.candidates,
        failures: failures as usize,
    }
}

/// One step of the selection: on beginning, the preferred interpreter is
/// tried when it qualifies, else the first candidate; a resolve that
/// succeeds for the interpreter waited on makes it the one used; otherwise
/// the next interpreter in order is tried, a failed resolve (of an
/// interpreter that qualified) counting as a failure; with none left the
/// selection gives up. An event that does not fit the state changes nothing
/// and gives up.
pub open spec fn spec_next_step(state: ResolveAttempt, event: AttemptEvent) -> (ResolveAttempt, Action) {
    match event {
        AttemptEvent::Begin { preferred_admitted } => if state.begun {
            (state, Action::GiveUp)
        } else {
            let action = if preferred_admitted {
                Action::Try(Choice::Preferred)
            } else {
                spec_from(0, state.candidates)
            };
            (spec_waiting(state, action, state.failures as int), action)
        },
        AttemptEvent::Outcome { admitted, resolved } => match state.current {
            None => (state, Action::GiveUp),
            Some(c) => {
                let qualified = match c {
                    Choice::Preferred => true,
                    Choice::Candidate(_) => admitted,
                };
                if qualified && resolved {
                    (spec_waiting(state, Action::Use(c), state.failures as int), Action::Use(c))
                } else {
                    let failures = if qualified && state.failures < usize::MAX {
                        state.failures + 1
                    } else {
                        state.failures as int
                    };
                    let action = spec_after(c, state.candidates);
                    (spec_waiting(state, action, failures), action)
                }
            },
        },
    }
}

/// The next state and action of the selection, as [`spec_next_step`]
/// gives them.
pub fn next_resolve_step(state: &ResolveAttempt, event: AttemptEvent) -> (res: (ResolveAttempt, Action))
    ensures
        res == spec_next_step(*state, event),
{
    match event {
        AttemptEvent::Begin { preferred_admitted } => {
            if state.begun {
                return (*state, Action::GiveUp);
            }
            let action = if preferred_admitted {
                Action::Try(Choice::Preferred)
            } else if state.candidates > 0 {
                Action::Try(Choice::Candidate(0))
            } else {
                Action::GiveUp
            };
            let current = match action {
                Action::Try(c) => Some(c),
                _ => None,
            };
            (ResolveAttempt { begun: true, current, candidates: state.candidates, failures: state.failures }, action)
        },
        AttemptEvent::Outcome { admitted, resolved } => {
            let c = match state.current {
                None => {
                    return (*state, Action::GiveUp);
                },
                Some(c) => c,
            };
            let qualified = match c {
                Choice::Preferred => true,
                Choice::Candidate(_) => admitted,
            };
            if qualified && resolved {
                return (
                    ResolveAttempt { begun: true, current: None, candidates: state.candidates, failures: state.failures },
                    Action::Use(c),
                );
            }
            let failures = if qualified && state.failures < usize::MAX {
                state.failures + 1
            } else {
                state.failures
            };
            let next = match c {
                Choice::Preferred => 0,
                Choice::Candidate(i) => {
                    if i >= state.candidates {
                        state.candidates
                    } else {
                        i + 1
                    }
                },
            };
            let action = if next < state.candidates {
                Action::Try(Choice::Candidate(next))
            } else {
                Action::GiveUp
            };
            let current = match action {
                Action::Try(c) => Some(c),
                _ => None,
            };
            (ResolveAttempt { begun: true, current, candidates: state.candidates, failures }, action)
        },
    }
}

/// The preferred interpreter is tried first exactly when it qualifies; an
/// interpreter is used only when the resolve for the interpreter waited on
/// succeeded, and then it is that interpreter; candidates are tried in
/// search order, each once.
pub proof fn law_selection_order(state: ResolveAttempt, event: AttemptEvent)
    ensures
        !state.begun ==> (event matches AttemptEvent::Begin { preferred_admitted } ==> (spec_next_step(
            state,
            event,
        ).1 == Action::Try(Choice::Preferred) <==> preferred_admitted)),
        spec_next_step(state, event).1 matches Action::Use(c) ==> (state.current == Some(c) && (event
            matches AttemptEvent::Outcome { resolved, .. } && resolved)),
        event is Outcome ==> (state.current matches Some(Choice::Candidate(i)) ==> (spec_next_step(state, event).1 matches Action::Try(
            Choice::Candidate(k),
        ) ==> k == i + 1)),
        spec_next_step(state, event).1 matches Action::Try(Choice::Preferred) ==> !state.begun,
{
}

/// `one` for a count of 1, `many` otherwise.
pub open spec fn plural(n: nat, one: Seq<char>, many: Seq<char>) -> Seq<char> {
    if n == 1 {
        one
    } else {
        many
    }
}

/// The root requirements listed one per line, each as `+ <requirement>`.
pub open spec fn requirement_lines(reqs: Seq<Seq<char>>) -> Seq<char>
    decreases reqs.len(),
{
    if reqs.len() == 0 {
        Seq::empty()
    } else if reqs.len() == 1 {
        "+ "@ + reqs[0]
    } else {
        requirement_lines(reqs.drop_last()) + "\n+ "@ + reqs.last()
    }
}

/// A number right-aligned in two columns.
pub open spec fn pad2(n: nat) -> Seq<char> {
    if n < 10 {
        " "@ + dec(n)
    } else {
        dec(n)
    }
}

/// The failed resolves listed one per line, numbered from 1, each as
/// `<number> <interpreter path>: <error>`.
pub open spec fn failure_lines(failures: Seq<(Seq<char>, Seq<char>)>) -> Seq<char>
    decreases failures.len(),
{
    if failures.len() == 0 {
        Seq::empty()
    } else {
        let line = pad2(failures.len()) + " "@ + failures.last().0 + ": "@ + failures.last().1;
        if failures.len() == 1 {
            line
        } else {
            failure_lines(failures.drop_last()) + "\n"@ + line
        }
    }
}

/// The message for a PEX no interpreter could resolve: the PEX, its root
/// requirements, and the interpreters tried with why each failed.
pub open spec fn spec_failure_message(
    pex_path: Seq<char>,
    reqs: Seq<Seq<char>>,
    failures: Seq<(Seq<char>, Seq<char>)>,
) -> Seq<char> {
    "Failed to resolve dependencies of PEX "@ + pex_path + ".\n\nThere are "@ + dec(reqs.len()) + " root "@ + plural(
        reqs.len(),
        "requirement"@,
        "requirements"@,
    ) + ":\n"@ + requirement_lines(reqs) + "\n\nTried resolving using "@ + dec(failures.len()) + " "@ + plural(
        failures.len(),
        "interpreter"@,
        "interpreters"@,
    ) + ":\n"@ + failure_lines(failures)
}

/// Texts as mathematical values.
pub open spec fn texts_view(v: Seq<String>) -> Seq<Seq<char>> {
    v.map_values(|t: String| t@)
}

/// Pairs of texts as mathematical values.
pub open spec fn pairs_view(v: Seq<(String, String)>) -> Seq<(Seq<char>, Seq<char>)> {
    v.map_values(|p: (String, String)| (p.0@, p.1@))
}

/// The message for the PEX at `pex_path` with the root requirements
/// `reqs` that no interpreter could resolve, `failures` holding each
/// interpreter tried and why it failed, as [`spec_failure_message`] gives it.
pub fn resolve_failure_message(pex_path: &str, reqs: &Vec<String>, failures: &Vec<(String, String)>) -> (s: String)
    ensures
        s@ == spec_failure_message(pex_path@, texts_view(reqs@), pairs_view(failures@)),
{
    let mut s = String::from_str("Failed to resolve dependencies of PEX ");
    s.append(pex_path);
    s.append(".\n\nThere are ");
    push_decimal(&mut s, reqs.len() as u64);
    s.append(" root ");
    if reqs.len() == 1 {
        s.append("requirement");
    } else {
        s.append("requirements");
    }
    s.append(":\n");
    let ghost head = s@;
    let mut i: usize = 0;
    while i < reqs.len()
        invariant
            i <= reqs@.len(),
            s@ == head + requirement_lines(texts_view(reqs@).take(i as int)),
        decreases reqs@.len() - i,
    {
        let ghost before = s@;
        if i > 0 {
            s.append("\n");
        }
        s.append("+ ");
        s.append(reqs[i].as_str());
        proof {
            reveal_strlit("\n");
            reveal_strlit("+ ");
            reveal_strlit("\n+ ");
            let t = texts_view(reqs@).take(i as int + 1);
            assert(t.drop_last() =~= texts_view(reqs@).take(i as int));
            assert(t.last() == reqs@[i as int]@);
            if i == 0 {
                assert(t.len() == 1);
            }
            assert(s@ =~= head + requirement_lines(t));
        }
        i = i + 1;
    }
    assert(texts_view(reqs@).take(reqs@.len() as int) =~= texts_view(reqs@));
    s.append("\n\nTried resolving using ");
    push_decimal(&mut s, failures.len() as u64);
    s.append(" ");
    if failures.len() == 1 {
        s.append("interpreter");
    } else {
        s.append("interpreters");
    }
    s.append(":\n");
    let ghost mid = s@;
    let mut k: usize = 0;
    while k < failures.len()
        invariant
            k <= failures@.len(),
            s@ == mid + failure_lines(pairs_view(failures@).take(k as int)),
        decreases failures@.len() - k,
    {
        if k > 0 {
            s.append("\n");
        }
        let n = k + 1;
        if n < 10 {
            s.append(" ");
        }
        push_decimal(&mut s, n as u64);
        s.append(" ");
        s.append(failures[k].0.as_str());
        s.append(": ");
        s.append(failures[k].1.as_str());
        proof {
            reveal_strlit("\n");
            reveal_strlit(" ");
            let t = pairs_view(failures@).take(k as int + 1);
            assert(t.drop_last() =~= pairs_view(failures@).take(k as int));
            assert(t.last() == (failures@[k as int].0@, failures@[k as int].1@));
            assert(s@ =~= mid + failure_lines(t));
        }
        k = k + 1;
    }
    assert(pairs_view(failures@).take(failures@.len() as int) =~= pairs_view(failures@));
    s
}

} // verus!
