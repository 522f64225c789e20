//! Resolving the wheels a PEX needs for a target from the wheels it holds:
//! working through the requirements in order, each resolved by the
//! best-ranked wheel of its project that it admits, whose own requirements
//! are then queued in turn.
//!
//! What the `pep508_rs` crate and the dependency configuration decide is
//! given as tables: whether a requirement's marker applies with given
//! extras, whether a requirement's version specifiers admit a wheel's
//! version, whether a requirement is excluded, and what overrides it.

use vstd::prelude::*;


use crate::constraints::{parse_requirement, pep508_requirement, RequirementVersion};
use crate::markers::{marker_texts, versions_accepted, MarkerFields};
use crate::tags::views;

verus! {

/// What a requirement says of versions: nothing, version specifiers, or a
/// direct URL.
#[derive(Copy, Clone, Debug, PartialEq, Eq)]
pub enum VersionConstraint {
    Any,
    Specifiers,
    Url,
}

/// A requirement: its normalised project name, its extras, and what it says
/// of versions.
pub struct Requirement {
    pub name: String,
    pub extras: Vec<String>,
    pub version: VersionConstraint,
}

/// A wheel that may resolve requirements: its file name, the project name
/// written in it, normalised (when valid), and the requirements it has, as
/// positions in the requirement table.
pub struct WheelInfo {
    pub file_name: String,
    pub normalized_name: Option<String>,
    pub requires_dists: Vec<usize>,
}

/// The wheels of one project, best-ranked first.
pub struct ProjectWheels {
    pub name: String,
    pub wheels: Vec<WheelInfo>,
}

/// The decisions the resolver takes from elsewhere, by requirement `r`:
/// `applies[r][e]` whether its marker holds with the extras of source `e`
/// (0 for none, `k + 1` for those of requirement `k`); `contains[r][p][w]`
/// whether its version specifiers admit wheel `w` of project `p`;
/// `excluded[r]` whether it is excluded; `overridden[r][e]` the requirement
/// that replaces it with the extras of source `e`, if any.
pub struct Decisions {
    pub applies: Vec<Vec<bool>>,
    pub contains: Vec<Vec<Vec<bool>>>,
    pub excluded: Vec<bool>,
    pub overridden: Vec<Vec<Option<usize>>>,
}

/// Why resolving failed.
#[derive(Debug, PartialEq, Eq)]
pub enum ResolveError {
    /// No project has the requirement's name; the wheels listed (project,
    /// wheel) carry that name as written but were grouped elsewhere.
    NoWheels(usize, Vec<(usize, usize)>),
    /// A requirement with a URL.
    UrlNotSupported(usize),
    /// No wheel of the project has a version the requirement admits; all of
    /// them are listed by position.
    Inapplicable(usize, Vec<usize>),
}

/// A failure as a mathematical value.
pub enum Failure {
    NoWheels(usize, Seq<(usize, usize)>),
    UrlNotSupported(usize),
    Inapplicable(usize, Seq<usize>),
}

impl View for ResolveError {
    type V = Failure;

    open spec fn view(&self) -> Failure {
        match self {
            ResolveError::NoWheels(r, v) => Failure::NoWheels(*r, v@),
            ResolveError::UrlNotSupported(r) => Failure::UrlNotSupported(*r),
            ResolveError::Inapplicable(r, v) => Failure::Inapplicable(*r, v@),
        }
    }
}

/// The state of a resolve: the queue of (requirement, extras index) pairs
/// and how far it was worked through, the resolved (requirement, project,
/// wheel) triples in order, and the extras sources by index.
pub struct ResolveState {
    pub queue: Seq<(usize, usize)>,
    pub head: nat,
    pub resolved: Seq<(usize, usize, usize)>,
    pub extras: Seq<usize>,
}

/// The extras of requirement `r`, as a set.
pub open spec fn extras_set(reqs: Seq<Requirement>, r: usize) -> Set<Seq<char>> {
    views(reqs[r as int].extras@).to_set()
}

/// Whether resolving requirement `have` also satisfies `want`: the same
/// name, and every extra of `want` among those of `have` (which covers two
/// requirements with the same name and extras).
pub open spec fn satisfies(reqs: Seq<Requirement>, have: usize, want: usize) -> bool {
    &&& reqs[have as int].name@ == reqs[want as int].name@
    &&& extras_set(reqs, want).subset_of(extras_set(reqs, have))
}

/// The position of the first project from position `i` on named `name`.
pub open spec fn project_from(projects: Seq<ProjectWheels>, name: Seq<char>, i: nat) -> Option<nat>
    decreases projects.len() - i,
{
    if i >= projects.len() {
        None
    } else if projects[i as int].name@ == name {
        Some(i)
    } else {
        project_from(projects, name, i + 1)
    }
}

/// The position of the first wheel from position `i` on, among `count`,
/// whose version requirement `r` admits in project `p`.
pub open spec fn first_admitted(d: Decisions, r: usize, p: nat, count: nat, i: nat) -> Option<nat>
    decreases count - i,
{
    if i >= count {
        None
    } else if d.contains@[r as int]@[p as int]@[i as int] {
        Some(i)
    } else {
        first_admitted(d, r, p, count, i + 1)
    }
}

/// The positions `0..n`.
pub open spec fn positions(n: nat) -> Seq<usize> {
    Seq::new(n, |k: int| k as usize)
}

/// The requirements of a wheel to queue with extras index `e`: those not
/// excluded, each replaced by its override for the extras of source `src`,
/// if it has one.
pub open spec fn queued_deps(d: Decisions, deps: Seq<usize>, src: usize, e: usize) -> Seq<(usize, usize)>
    decreases deps.len(),
{
    if deps.len() == 0 {
        Seq::empty()
    } else {
        let before = queued_deps(d, deps.drop_last(), src, e);
        let dep = deps.last();
        if d.excluded@[dep as int] {
            before
        } else {
            match d.overridden@[dep as int]@[src as int] {
                Some(o) => before.push((o, e)),
                None => before.push((dep, e)),
            }
        }
    }
}

/// The wheels among the first `n` of project `p` whose written project name
/// normalises to `name`.
pub open spec fn named_in(wheels: Seq<WheelInfo>, name: Seq<char>, p: usize, n: nat) -> Seq<(usize, usize)>
    decreases n,
{
    if n == 0 {
        Seq::empty()
    } else {
        let before = named_in(wheels, name, p, (n - 1) as nat);
        match wheels[n - 1].normalized_name {
            Some(w) => if w@ == name {
                before.push((p, (n - 1) as usize))
            } else {
                before
            },
            None => before,
        }
    }
}

/// The wheels of the first `n` projects whose written project name
/// normalises to `name`, by project and then by wheel.
pub open spec fn named_wheels(projects: Seq<ProjectWheels>, name: Seq<char>, n: nat) -> Seq<(usize, usize)>
    decreases n,
{
    if n == 0 {
        Seq::empty()
    } else {
        let p = n - 1;
        named_wheels(projects, name, (n - 1) as nat) + named_in(
            projects[p].wheels@,
            name,
            p as usize,
            projects[p].wheels@.len(),
        )
    }
}

/// The queue a resolve starts from: the root requirements not excluded,
/// with no extras.
pub open spec fn initial_queue(d: Decisions, roots: Seq<usize>) -> Seq<(usize, usize)>
    decreases roots.len(),
{
    if roots.len() == 0 {
        Seq::empty()
    } else {
        let before = initial_queue(d, roots.drop_last());
        if d.excluded@[roots.last() as int] {
            before
        } else {
            before.push((roots.last(), 0usize))
        }
    }
}

/// The state a resolve starts from.
pub open spec fn initial_state(d: Decisions, roots: Seq<usize>) -> ResolveState {
    ResolveState { queue: initial_queue(d, roots), head: 0, resolved: Seq::empty(), extras: seq![0usize] }
}

/// One step of a resolve.
pub enum Step {
    /// The queue is worked through.
    Done,
    /// Resolving failed.
    Failed(Failure),
    /// The state after the step.
    Next(ResolveState),
}

/// The state after requirement `r` of the queue entry at the head is
/// resolved by wheel `w` of project `p`: a requirement with extras gets a
/// new extras index, and the wheel's requirements are queued with it.
pub open spec fn resolve_with(
    projects: Seq<ProjectWheels>,
    reqs: Seq<Requirement>,
    d: Decisions,
    s: ResolveState,
    r: usize,
    p: nat,
    w: nat,
) -> ResolveState {
    let no_extras = reqs[r as int].extras@.len() == 0;
    let e: usize = if no_extras {
        0
    } else {
        s.extras.len() as usize
    };
    let extras = if no_extras {
        s.extras
    } else {
        s.extras.push((r + 1) as usize)
    };
    let deps = projects[p as int].wheels@[w as int].requires_dists@;
    ResolveState {
        queue: s.queue + queued_deps(d, deps, extras[e as int], e),
        head: s.head + 1,
        resolved: s.resolved.push((r, p as usize, w as usize)),
        extras,
    }
}

/// One step of a resolve: the requirement at the head of the queue is
/// skipped when a resolved requirement satisfies it or its marker does not
/// apply; else it is resolved by the first wheel of its project that it
/// admits. A requirement with no project fails unless errors are ignored, a
/// URL requirement fails, and one that admits no wheel fails.
pub open spec fn step(
    projects: Seq<ProjectWheels>,
    reqs: Seq<Requirement>,
    d: Decisions,
    ignore_errors: bool,
    s: ResolveState,
) -> Step {
    if s.head >= s.queue.len() {
        Step::Done
    } else {
        let (r, x) = s.queue[s.head as int];
        let skipped = ResolveState { head: s.head + 1, ..s };
        if exists|i: int| 0 <= i < s.resolved.len() && satisfies(reqs, #[trigger] s.resolved[i].0, r) {
            Step::Next(skipped)
        } else if !d.applies@[r as int]@[s.extras[x as int] as int] {
            Step::Next(skipped)
        } else {
            match project_from(projects, reqs[r as int].name@, 0) {
                None => if ignore_errors {
                    Step::Next(skipped)
                } else {
                    Step::Failed(
                        Failure::NoWheels(r, named_wheels(projects, reqs[r as int].name@, projects.len())),
                    )
                },
                Some(p) => {
                    let count = projects[p as int].wheels@.len();
                    if count == 0 {
                        Step::Next(skipped)
                    } else {
                        match reqs[r as int].version {
                            VersionConstraint::Any => Step::Next(resolve_with(projects, reqs, d, s, r, p, 0)),
                            VersionConstraint::Url => Step::Failed(Failure::UrlNotSupported(r)),
                            VersionConstraint::Specifiers => match first_admitted(d, r, p, count, 0) {
                                Some(w) => Step::Next(resolve_with(projects, reqs, d, s, r, p, w)),
                                None => Step::Failed(Failure::Inapplicable(r, positions(count))),
                            },
                        }
                    }
                },
            }
        }
    }
}

/// Up to `fuel` steps of a resolve from state `s`: the resolved triples
/// when the queue is worked through, or the failure.
pub open spec fn run(
    projects: Seq<ProjectWheels>,
    reqs: Seq<Requirement>,
    d: Decisions,
    ignore_errors: bool,
    s: ResolveState,
    fuel: nat,
) -> Option<Result<Seq<(usize, usize, usize)>, Failure>>
    decreases fuel,
{
    if fuel == 0 {
        None
    } else {
        match step(projects, reqs, d, ignore_errors, s) {
            Step::Done => Some(Ok(s.resolved)),
            Step::Failed(f) => Some(Err(f)),
            Step::Next(next) => run(projects, reqs, d, ignore_errors, next, (fuel - 1) as nat),
        }
    }
}

/// How a resolve fails on the requirement at the head of the queue, when it
/// applies and nothing resolved satisfies it: with no project of its name,
/// it fails unless errors are ignored, in which case it is skipped; with a
/// project whose wheels it admits none of (by its version specifiers), it
/// fails whether or not errors are ignored; a URL requirement with a
/// project that has wheels always fails.
pub proof fn law_step_failures(
    projects: Seq<ProjectWheels>,
    reqs: Seq<Requirement>,
    d: Decisions,
    ignore_errors: bool,
    s: ResolveState,
)
    requires
        s.head < s.queue.len(),
        !(exists|i: int| 0 <= i < s.resolved.len() && satisfies(reqs, #[trigger] s.resolved[i].0, s.queue[s.head as int].0)),
        d.applies@[s.queue[s.head as int].0 as int]@[s.extras[s.queue[s.head as int].1 as int] as int],
    ensures
        ({
            let r = s.queue[s.head as int].0;
            let st = step(projects, reqs, d, ignore_errors, s);
            &&& project_from(projects, reqs[r as int].name@, 0) is None ==> (ignore_errors <==> st is Next)
            &&& project_from(projects, reqs[r as int].name@, 0) matches Some(p) ==> (projects[p as int].wheels@.len() > 0
                && reqs[r as int].version == VersionConstraint::Specifiers && first_admitted(
                d,
                r,
                p,
                projects[p as int].wheels@.len(),
                0,
            ) is None ==> st == Step::Failed(
                Failure::Inapplicable(r, positions(projects[p as int].wheels@.len())),
            ))
            &&& project_from(projects, reqs[r as int].name@, 0) matches Some(p) ==> (projects[p as int].wheels@.len() > 0
                && reqs[r as int].version == VersionConstraint::Url ==> st == Step::Failed(Failure::UrlNotSupported(r)))
        }),
{
}

/// A resolve has one outcome: two runs from the same state that both
/// finish give the same outcome, whatever fuel each was given.
pub proof fn law_run_deterministic(
    projects: Seq<ProjectWheels>,
    reqs: Seq<Requirement>,
    d: Decisions,
    ignore_errors: bool,
    s: ResolveState,
    f1: nat,
    f2: nat,
)
    requires
        run(projects, reqs, d, ignore_errors, s, f1) is Some,
        run(projects, reqs, d, ignore_errors, s, f2) is Some,
    ensures
        run(projects, reqs, d, ignore_errors, s, f1) == run(projects, reqs, d, ignore_errors, s, f2),
    decreases f1,
{
    match step(projects, reqs, d, ignore_errors, s) {
        Step::Next(next) => {
            law_run_deterministic(projects, reqs, d, ignore_errors, next, (f1 - 1) as nat, (f2 - 1) as nat);
        },
        _ => {},
    }
}


/// Whether the tables fit the requirements and projects: one entry per
/// requirement, per extras source, per project and per wheel, and every
/// requirement position in range.
pub open spec fn inputs_wf(projects: Seq<ProjectWheels>, reqs: Seq<Requirement>, d: Decisions) -> bool {
    let n = reqs.len();
    &&& d.applies@.len() == n
    &&& forall|r: int| 0 <= r < n ==> (#[trigger] d.applies@[r])@.len() == n + 1
    &&& d.contains@.len() == n
    &&& forall|r: int| 0 <= r < n ==> (#[trigger] d.contains@[r])@.len() == projects.len()
    &&& forall|r: int, p: int|
        0 <= r < n && 0 <= p < projects.len() ==> (#[trigger] d.contains@[r]@[p])@.len()
            == projects[p].wheels@.len()
    &&& d.excluded@.len() == n
    &&& d.overridden@.len() == n
    &&& forall|r: int| 0 <= r < n ==> (#[trigger] d.overridden@[r])@.len() == n + 1
    &&& forall|r: int, e: int|
        0 <= r < n && 0 <= e <= n ==> match #[trigger] d.overridden@[r]@[e] {
            Some(o) => o < n,
            None => true,
        }
    &&& forall|p: int, w: int, k: int|
        0 <= p < projects.len() && 0 <= w < projects[p].wheels@.len() && 0 <= k
            < projects[p].wheels@[w].requires_dists@.len() ==> #[trigger] projects[p].wheels@[w].requires_dists@[k]
            < n
}

/// Whether a state's positions are in range and its resolved requirements
/// are distinct.
pub open spec fn state_wf(reqs: Seq<Requirement>, s: ResolveState) -> bool {
    let n = reqs.len();
    &&& s.head <= s.queue.len()
    &&& forall|i: int| 0 <= i < s.queue.len() ==> (#[trigger] s.queue[i]).0 < n && s.queue[i].1 < s.extras.len()
    &&& s.extras.len() >= 1
    &&& forall|i: int| 0 <= i < s.extras.len() ==> #[trigger] s.extras[i] <= n
    &&& forall|i: int| 0 <= i < s.resolved.len() ==> (#[trigger] s.resolved[i]).0 < n
    &&& forall|i: int, j: int|
        0 <= i < j < s.resolved.len() ==> (#[trigger] s.resolved[i]).0 != (#[trigger] s.resolved[j]).0
    &&& s.resolved.len() <= n
}

/// The outcome of a resolve as a mathematical value.
pub open spec fn outcome(res: Result<Vec<(usize, usize, usize)>, ResolveError>) -> Result<
    Seq<(usize, usize, usize)>,
    Failure,
> {
    match res {
        Ok(v) => Ok(v@),
        Err(e) => Err(e@),
    }
}

proof fn lemma_distinct_bounded(s: Seq<(usize, usize, usize)>, n: nat)
    requires
        forall|i: int| 0 <= i < s.len() ==> (#[trigger] s[i]).0 < n,
        forall|i: int, j: int| 0 <= i < j < s.len() ==> (#[trigger] s[i]).0 != (#[trigger] s[j]).0,
    ensures
        s.len() <= n,
{
    let t = s.map_values(|x: (usize, usize, usize)| x.0 as int);
    assert(t.no_duplicates()) by {
        assert forall|i: int, j: int| 0 <= i < t.len() && 0 <= j < t.len() && i != j implies t[i] != t[j] by {
            if i < j {
                assert(s[i].0 != s[j].0);
            } else {
                assert(s[j].0 != s[i].0);
            }
        }
    }
    t.unique_seq_to_set();
    vstd::set_lib::lemma_int_range(0, n as int);
    assert(t.to_set().subset_of(vstd::set_lib::set_int_range(0, n as int))) by {
        assert forall|x: int| t.to_set().contains(x) implies vstd::set_lib::set_int_range(0, n as int).contains(
            x,
        ) by {
            let k = choose|k: int| 0 <= k < t.len() && t[k] == x;
            assert(s[k].0 < n);
        }
    }
    vstd::set_lib::lemma_len_subset(t.to_set(), vstd::set_lib::set_int_range(0, n as int));
}

proof fn lemma_queued_deps(d: Decisions, deps: Seq<usize>, src: usize, e: usize, n: nat)
    requires
        d.excluded@.len() == n,
        d.overridden@.len() == n,
        src <= n,
        forall|r: int| 0 <= r < n ==> (#[trigger] d.overridden@[r])@.len() == n + 1,
        forall|r: int, x: int|
            0 <= r < n && 0 <= x <= n ==> match #[trigger] d.overridden@[r]@[x] {
                Some(o) => o < n,
                None => true,
            },
        forall|k: int| 0 <= k < deps.len() ==> #[trigger] deps[k] < n,
    ensures
        forall|k: int|
            0 <= k < queued_deps(d, deps, src, e).len() ==> (#[trigger] queued_deps(d, deps, src, e)[k]).0 < n
                && queued_deps(d, deps, src, e)[k].1 == e,
    decreases deps.len(),
{
    if deps.len() > 0 {
        let rest = deps.drop_last();
        assert forall|k: int| 0 <= k < rest.len() implies #[trigger] rest[k] < n by {
            assert(deps[k] < n);
        }
        lemma_queued_deps(d, rest, src, e, n);
        let before = queued_deps(d, rest, src, e);
        let q = queued_deps(d, deps, src, e);
        let dep = deps.last();
        assert(deps[deps.len() - 1] < n);
        assert(d.overridden@[dep as int]@.len() == n + 1);
        let m = d.overridden@[dep as int]@[src as int];
        assert forall|k: int| 0 <= k < q.len() implies (#[trigger] q[k]).0 < n && q[k].1 == e by {
            if k < before.len() {
                assert(q[k] == before[k]);
            }
        }
    }
}

proof fn lemma_advance(
    projects: Seq<ProjectWheels>,
    reqs: Seq<Requirement>,
    d: Decisions,
    ignore_errors: bool,
    init: ResolveState,
    s: ResolveState,
    next: ResolveState,
    taken: nat,
)
    requires
        forall|f: nat| #[trigger]
            run(projects, reqs, d, ignore_errors, init, f + taken) == run(projects, reqs, d, ignore_errors, s, f),
        step(projects, reqs, d, ignore_errors, s) == Step::Next(next),
    ensures
        forall|f: nat| #[trigger]
            run(projects, reqs, d, ignore_errors, init, f + (taken + 1)) == run(
                projects,
                reqs,
                d,
                ignore_errors,
                next,
                f,
            ),
{
    assert forall|f: nat| #[trigger]
        run(projects, reqs, d, ignore_errors, init, f + (taken + 1)) == run(
            projects,
            reqs,
            d,
            ignore_errors,
            next,
            f,
        ) by {
        assert(run(projects, reqs, d, ignore_errors, init, (f + 1) + taken) == run(
            projects,
            reqs,
            d,
            ignore_errors,
            s,
            f + 1,
        ));
        assert(f + 1 + taken == f + (taken + 1));
    }
}

proof fn lemma_finish(
    projects: Seq<ProjectWheels>,
    reqs: Seq<Requirement>,
    d: Decisions,
    ignore_errors: bool,
    init: ResolveState,
    s: ResolveState,
    taken: nat,
    out: Result<Seq<(usize, usize, usize)>, Failure>,
)
    requires
        forall|f: nat| #[trigger]
            run(projects, reqs, d, ignore_errors, init, f + taken) == run(projects, reqs, d, ignore_errors, s, f),
        match step(projects, reqs, d, ignore_errors, s) {
            Step::Done => out == Ok::<Seq<(usize, usize, usize)>, Failure>(s.resolved),
            Step::Failed(x) => out == Err::<Seq<(usize, usize, usize)>, Failure>(x),
            Step::Next(_) => false,
        },
    ensures
        run(projects, reqs, d, ignore_errors, init, taken + 1) == Some(out),
{
    assert(run(projects, reqs, d, ignore_errors, init, 1 + taken) == run(projects, reqs, d, ignore_errors, s, 1));
}

fn contains_text(v: &Vec<String>, s: &String) -> (res: bool)
    ensures
        res == views(v@).contains(s@),
{
    let mut i: usize = 0;
    while i < v.len()
        invariant
            i <= v@.len(),
            forall|k: int| 0 <= k < i ==> v@[k]@ != s@,
        decreases v@.len() - i,
    {
        if v[i] == *s {
            assert(views(v@)[i as int] == s@);
            return true;
        }
        i = i + 1;
    }
    assert(!views(v@).contains(s@)) by {
        if views(v@).contains(s@) {
            let k = choose|k: int| 0 <= k < views(v@).len() && views(v@)[k] == s@;
            assert(v@[k]@ == s@);
        }
    }
    false
}

fn extras_subset(want: &Vec<String>, have: &Vec<String>) -> (res: bool)
    ensures
        res == views(want@).to_set().subset_of(views(have@).to_set()),
{
    let mut i: usize = 0;
    while i < want.len()
        invariant
            i <= want@.len(),
            forall|k: int| 0 <= k < i ==> views(have@).contains(#[trigger] views(want@)[k]),
        decreases want@.len() - i,
    {
        if !contains_text(have, &want[i]) {
            assert(views(want@)[i as int] == want@[i as int]@);
            assert(views(want@).to_set().contains(want@[i as int]@));
            return false;
        }
        assert(views(want@)[i as int] == want@[i as int]@);
        i = i + 1;
    }
    assert forall|x: Seq<char>| views(want@).to_set().contains(x) implies views(have@).to_set().contains(x) by {
        let k = choose|k: int| 0 <= k < views(want@).len() && views(want@)[k] == x;
    }
    true
}

fn satisfies_exec(reqs: &Vec<Requirement>, have: usize, want: usize) -> (res: bool)
    requires
        have < reqs@.len(),
        want < reqs@.len(),
    ensures
        res == satisfies(reqs@, have, want),
{
    reqs[have].name == reqs[want].name && extras_subset(&reqs[want].extras, &reqs[have].extras)
}

fn already_satisfied(reqs: &Vec<Requirement>, resolved: &Vec<(usize, usize, usize)>, r: usize) -> (res: bool)
    requires
        r < reqs@.len(),
        forall|i: int| 0 <= i < resolved@.len() ==> (#[trigger] resolved@[i]).0 < reqs@.len(),
    ensures
        res == exists|i: int| 0 <= i < resolved@.len() && satisfies(reqs@, #[trigger] resolved@[i].0, r),
{
    let mut i: usize = 0;
    while i < resolved.len()
        invariant
            i <= resolved@.len(),
            r < reqs@.len(),
            forall|k: int| 0 <= k < resolved@.len() ==> (#[trigger] resolved@[k]).0 < reqs@.len(),
            forall|k: int| 0 <= k < i ==> !satisfies(reqs@, #[trigger] resolved@[k].0, r),
        decreases resolved@.len() - i,
    {
        if satisfies_exec(reqs, resolved[i].0, r) {
            return true;
        }
        i = i + 1;
    }
    false
}

fn find_project(projects: &Vec<ProjectWheels>, name: &String) -> (res: Option<usize>)
    ensures
        match res {
            Some(p) => project_from(projects@, name@, 0) == Some(p as nat) && p < projects@.len(),
            None => project_from(projects@, name@, 0) is None,
        },
{
    let mut i: usize = 0;
    while i < projects.len()
        invariant
            i <= projects@.len(),
            project_from(projects@, name@, 0) == project_from(projects@, name@, i as nat),
        decreases projects@.len() - i,
    {
        if projects[i].name == *name {
            return Some(i);
        }
        i = i + 1;
    }
    None
}

fn find_admitted(d: &Decisions, r: usize, p: usize, count: usize) -> (res: Option<usize>)
    requires
        r < d.contains@.len(),
        p < d.contains@[r as int]@.len(),
        count == d.contains@[r as int]@[p as int]@.len(),
    ensures
        match res {
            Some(w) => first_admitted(*d, r, p as nat, count as nat, 0) == Some(w as nat) && w < count,
            None => first_admitted(*d, r, p as nat, count as nat, 0) is None,
        },
{
    let mut i: usize = 0;
    while i < count
        invariant
            i <= count,
            r < d.contains@.len(),
            p < d.contains@[r as int]@.len(),
            count == d.contains@[r as int]@[p as int]@.len(),
            first_admitted(*d, r, p as nat, count as nat, 0) == first_admitted(*d, r, p as nat, count as nat, i as nat),
        decreases count - i,
    {
        if d.contains[r][p][i] {
            return Some(i);
        }
        i = i + 1;
    }
    None
}

fn positions_exec(count: usize) -> (v: Vec<usize>)
    ensures
        v@ == positions(count as nat),
{
    let mut v: Vec<usize> = Vec::new();
    let mut k: usize = 0;
    while k < count
        invariant
            k <= count,
            v@ == positions(k as nat),
        decreases count - k,
    {
        v.push(k);
        k = k + 1;
        assert(v@ =~= positions(k as nat));
    }
    v
}

fn named_wheels_exec(projects: &Vec<ProjectWheels>, name: &String) -> (v: Vec<(usize, usize)>)
    ensures
        v@ == named_wheels(projects@, name@, projects@.len()),
{
    let mut v: Vec<(usize, usize)> = Vec::new();
    let mut p: usize = 0;
    while p < projects.len()
        invariant
            p <= projects@.len(),
            v@ == named_wheels(projects@, name@, p as nat),
        decreases projects@.len() - p,
    {
        let wheels = &projects[p].wheels;
        let ghost before = v@;
        let mut w: usize = 0;
        while w < wheels.len()
            invariant
                p < projects@.len(),
                wheels == &projects@[p as int].wheels,
                w <= wheels@.len(),
                before == named_wheels(projects@, name@, p as nat),
                v@ == before + named_in(wheels@, name@, p, w as nat),
            decreases wheels@.len() - w,
        {
            let ghost prev = named_in(wheels@, name@, p, w as nat);
            match &wheels[w].normalized_name {
                Some(n) => {
                    if *n == *name {
                        v.push((p, w));
                        assert(v@ =~= before + prev.push((p, w)));
                    }
                },
                None => {},
            }
            w = w + 1;
        }
        p = p + 1;
    }
    v
}

fn queue_deps(queue: &mut Vec<(usize, usize)>, d: &Decisions, deps: &Vec<usize>, src: usize, e: usize)
    requires
        forall|k: int| 0 <= k < deps@.len() ==> #[trigger] deps@[k] < d.excluded@.len(),
        d.overridden@.len() == d.excluded@.len(),
        forall|r: int| 0 <= r < d.excluded@.len() ==> src < (#[trigger] d.overridden@[r])@.len(),
    ensures
        final(queue)@ == old(queue)@ + queued_deps(*d, deps@, src, e),
{
    let mut k: usize = 0;
    while k < deps.len()
        invariant
            k <= deps@.len(),
            forall|j: int| 0 <= j < deps@.len() ==> #[trigger] deps@[j] < d.excluded@.len(),
            d.overridden@.len() == d.excluded@.len(),
            forall|r: int| 0 <= r < d.excluded@.len() ==> src < (#[trigger] d.overridden@[r])@.len(),
            queue@ == old(queue)@ + queued_deps(*d, deps@.subrange(0, k as int), src, e),
        decreases deps@.len() - k,
    {
        let dep = deps[k];
        let ghost before = queued_deps(*d, deps@.subrange(0, k as int), src, e);
        assert(deps@.subrange(0, k + 1).drop_last() =~= deps@.subrange(0, k as int));
        if !d.excluded[dep] {
            match d.overridden[dep][src] {
                Some(o) => {
                    queue.push((o, e));
                    assert(queue@ =~= old(queue)@ + before.push((o, e)));
                },
                None => {
                    queue.push((dep, e));
                    assert(queue@ =~= old(queue)@ + before.push((dep, e)));
                },
            }
        }
        k = k + 1;
    }
    assert(deps@.subrange(0, deps@.len() as int) =~= deps@);
}

fn initial_queue_exec(d: &Decisions, roots: &Vec<usize>) -> (q: Vec<(usize, usize)>)
    requires
        forall|k: int| 0 <= k < roots@.len() ==> #[trigger] roots@[k] < d.excluded@.len(),
    ensures
        q@ == initial_queue(*d, roots@),
{
    let mut q: Vec<(usize, usize)> = Vec::new();
    let mut k: usize = 0;
    while k < roots.len()
        invariant
            k <= roots@.len(),
            forall|j: int| 0 <= j < roots@.len() ==> #[trigger] roots@[j] < d.excluded@.len(),
            q@ == initial_queue(*d, roots@.subrange(0, k as int)),
        decreases roots@.len() - k,
    {
        let ghost before = initial_queue(*d, roots@.subrange(0, k as int));
        assert(roots@.subrange(0, k + 1).drop_last() =~= roots@.subrange(0, k as int));
        if !d.excluded[roots[k]] {
            q.push((roots[k], 0));
            assert(q@ =~= before.push((roots@[k as int], 0usize)));
        }
        k = k + 1;
    }
    assert(roots@.subrange(0, roots@.len() as int) =~= roots@);
    q
}

/// The state of a resolve held in its working vectors.
pub open spec fn state_of(
    queue: Seq<(usize, usize)>,
    head: usize,
    resolved: Seq<(usize, usize, usize)>,
    extras: Seq<usize>,
) -> ResolveState {
    ResolveState { queue, head: head as nat, resolved, extras }
}

/// Resolves the root requirements `roots` against the wheels of `projects`:
/// the resolved (requirement, project, wheel) triples in the order they were
/// resolved, or why resolving failed, as [`run`] gives it from the initial
/// state (which has one outcome: [`law_run_deterministic`]).
pub fn resolve(
    projects: &Vec<ProjectWheels>,
    reqs: &Vec<Requirement>,
    d: &Decisions,
    roots: &Vec<usize>,
    ignore_errors: bool,
) -> (res: Result<Vec<(usize, usize, usize)>, ResolveError>)
    requires
        inputs_wf(projects@, reqs@, *d),
        forall|k: int| 0 <= k < roots@.len() ==> #[trigger] roots@[k] < reqs@.len(),
    ensures
        exists|f: nat|
            #[trigger] run(projects@, reqs@, *d, ignore_errors, initial_state(*d, roots@), f) == Some(
                outcome(res),
            ),
        res matches Ok(v) ==> forall|i: int| 0 <= i < v@.len() ==> (#[trigger] v@[i]).0 < reqs@.len(),
{
    let n_reqs = reqs.len();
    let ghost n = reqs@.len();
    let ghost init = initial_state(*d, roots@);
    let mut queue = initial_queue_exec(d, roots);
    let mut head: usize = 0;
    let mut resolved: Vec<(usize, usize, usize)> = Vec::new();
    let mut extras: Vec<usize> = Vec::new();
    extras.push(0);
    let ghost mut taken: nat = 0;
    proof {
        assert(extras@ =~= seq![0usize]);
        assert(state_of(queue@, head, resolved@, extras@) == init);
        lemma_initial_queue(*d, roots@, n);
    }
    while head < queue.len()
        invariant
            n == reqs@.len(),
            n_reqs == n,
            init == initial_state(*d, roots@),
            inputs_wf(projects@, reqs@, *d),
            state_wf(reqs@, state_of(queue@, head, resolved@, extras@)),
            forall|f: nat| #[trigger]
                run(projects@, reqs@, *d, ignore_errors, init, f + taken) == run(
                    projects@,
                    reqs@,
                    *d,
                    ignore_errors,
                    state_of(queue@, head, resolved@, extras@),
                    f,
                ),
        decreases reqs@.len() - resolved@.len(), queue@.len() - head,
    {
        let ghost s = state_of(queue@, head, resolved@, extras@);
        let (r, x) = queue[head];
        assert(s.queue[head as int] == (r, x));
        let sat = already_satisfied(reqs, &resolved, r);
        let applies = !sat && d.applies[r][extras[x]];
        let ghost skipped = ResolveState { head: s.head + 1, ..s };
        if !applies {
            head = head + 1;
            proof {
                assert(state_of(queue@, head, resolved@, extras@) == skipped);
                lemma_advance(projects@, reqs@, *d, ignore_errors, init, s, skipped, taken);
                taken = taken + 1;
            }
        } else {
            match find_project(projects, &reqs[r].name) {
                None => {
                    if ignore_errors {
                        head = head + 1;
                        proof {
                            assert(state_of(queue@, head, resolved@, extras@) == skipped);
                            lemma_advance(projects@, reqs@, *d, ignore_errors, init, s, skipped, taken);
                            taken = taken + 1;
                        }
                    } else {
                        let named = named_wheels_exec(projects, &reqs[r].name);
                        let err = ResolveError::NoWheels(r, named);
                        proof {
                            lemma_finish(projects@, reqs@, *d, ignore_errors, init, s, taken, outcome(Err(err)));
                        }
                        return Err(err);
                    }
                },
                Some(p) => {
                    let count = projects[p].wheels.len();
                    if count == 0 {
                        head = head + 1;
                        proof {
                            assert(state_of(queue@, head, resolved@, extras@) == skipped);
                            lemma_advance(projects@, reqs@, *d, ignore_errors, init, s, skipped, taken);
                            taken = taken + 1;
                        }
                    } else {
                        let w: usize = match reqs[r].version {
                            VersionConstraint::Any => 0,
                            VersionConstraint::Url => {
                                let err = ResolveError::UrlNotSupported(r);
                                proof {
                                    lemma_finish(projects@, reqs@, *d, ignore_errors, init, s, taken, outcome(Err(err)));
                                }
                                return Err(err);
                            },
                            VersionConstraint::Specifiers => {
                                assert(d.contains@[r as int]@[p as int]@.len() == count);
                                match find_admitted(d, r, p, count) {
                                    Some(w) => w,
                                    None => {
                                        let err = ResolveError::Inapplicable(r, positions_exec(count));
                                        proof {
                                            lemma_finish(
                                                projects@,
                                                reqs@,
                                                *d,
                                                ignore_errors,
                                                init,
                                                s,
                                                taken,
                                                outcome(Err(err)),
                                            );
                                        }
                                        return Err(err);
                                    },
                                }
                            },
                        };
                        let ghost next = resolve_with(projects@, reqs@, *d, s, r, p as nat, w as nat);
                        let e: usize = if reqs[r].extras.len() == 0 {
                            0
                        } else {
                            let e = extras.len();
                            extras.push(r + 1);
                            e
                        };
                        let src = extras[e];
                        let deps = &projects[p].wheels[w].requires_dists;
                        proof {
                            assert forall|k: int| 0 <= k < deps@.len() implies #[trigger] deps@[k] < n by {
                                assert(projects@[p as int].wheels@[w as int].requires_dists@[k] < n);
                            }
                            assert(extras@ == next.extras);
                            lemma_queued_deps(*d, deps@, src, e, n);
                        }
                        queue_deps(&mut queue, d, deps, src, e);
                        resolved.push((r, p, w));
                        head = head + 1;
                        proof {
                            assert(state_of(queue@, head, resolved@, extras@) == next);
                            assert forall|i: int| 0 <= i < s.resolved.len() implies (#[trigger] s.resolved[i]).0 != r by {
                                if s.resolved[i].0 == r {
                                    assert(extras_set(reqs@, r).subset_of(extras_set(reqs@, r)));
                                    assert(satisfies(reqs@, s.resolved[i].0, r));
                                }
                            }
                            let t = resolved@;
                            assert forall|i: int, j: int| 0 <= i < j < t.len() implies (#[trigger] t[i]).0 != (#[trigger] t[j]).0 by {
                                if j < t.len() - 1 {
                                    assert(t[i] == s.resolved[i] && t[j] == s.resolved[j]);
                                } else {
                                    assert(t[i] == s.resolved[i]);
                                }
                            }
                            lemma_distinct_bounded(t, n);
                            lemma_advance(projects@, reqs@, *d, ignore_errors, init, s, next, taken);
                            taken = taken + 1;
                        }
                    }
                },
            }
        }
    }
    proof {
        let s = state_of(queue@, head, resolved@, extras@);
        lemma_finish(projects@, reqs@, *d, ignore_errors, init, s, taken, outcome(Ok(resolved)));
    }
    Ok(resolved)
}

proof fn lemma_initial_queue(d: Decisions, roots: Seq<usize>, n: nat)
    requires
        forall|k: int| 0 <= k < roots.len() ==> #[trigger] roots[k] < n,
    ensures
        forall|i: int| 0 <= i < initial_queue(d, roots).len() ==> (#[trigger] initial_queue(d, roots)[i]).0 < n
            && initial_queue(d, roots)[i].1 == 0,
    decreases roots.len(),
{
    if roots.len() > 0 {
        let rest = roots.drop_last();
        assert forall|k: int| 0 <= k < rest.len() implies #[trigger] rest[k] < n by {
            assert(roots[k] < n);
        }
        lemma_initial_queue(d, rest, n);
        let before = initial_queue(d, rest);
        let q = initial_queue(d, roots);
        assert(roots[roots.len() - 1] < n);
        assert forall|i: int| 0 <= i < q.len() implies (#[trigger] q[i]).0 < n && q[i].1 == 0 by {
            if i < before.len() {
                assert(q[i] == before[i]);
            }
        }
    }
}

/// The position in `supported` of the last tag equal to `tag` among the
/// first `n`.
pub open spec fn last_index(supported: Seq<Seq<char>>, tag: Seq<char>, n: nat) -> Option<nat>
    decreases n,
{
    if n == 0 {
        None
    } else if supported[n - 1] == tag {
        Some((n - 1) as nat)
    } else {
        last_index(supported, tag, (n - 1) as nat)
    }
}

/// The position among the first `n` entries of the one keyed `key`, if any.
pub open spec fn key_position(entries: Seq<(Seq<char>, usize, usize)>, key: Seq<char>, n: nat) -> Option<nat>
    decreases n,
{
    if n == 0 {
        None
    } else if entries[n - 1].0 == key {
        Some((n - 1) as nat)
    } else {
        key_position(entries, key, (n - 1) as nat)
    }
}

/// Whether the resolved triples name wheels of `projects`.
pub open spec fn resolved_in(projects: Seq<ProjectWheels>, resolved: Seq<(usize, usize, usize)>) -> bool {
    forall|i: int|
        0 <= i < resolved.len() ==> (#[trigger] resolved[i]).1 < projects.len() && resolved[i].2
            < projects[resolved[i].1 as int].wheels@.len()
}

/// The first `n` resolved wheels keyed by their file names, each name once
/// at the place it first comes, with the (project, wheel) it was last given.
pub open spec fn spec_by_file_name(
    projects: Seq<ProjectWheels>,
    resolved: Seq<(usize, usize, usize)>,
    n: nat,
) -> Seq<(Seq<char>, usize, usize)>
    decreases n,
{
    if n == 0 {
        Seq::empty()
    } else {
        let before = spec_by_file_name(projects, resolved, (n - 1) as nat);
        let (r, p, w) = resolved[n - 1];
        let name = projects[p as int].wheels@[w as int].file_name@;
        match key_position(before, name, before.len()) {
            Some(k) => before.update(k as int, (name, p, w)),
            None => before.push((name, p, w)),
        }
    }
}

/// Where a key is among entries, it is there.
proof fn lemma_key_position(entries: Seq<(Seq<char>, usize, usize)>, key: Seq<char>, n: nat)
    requires
        n <= entries.len(),
    ensures
        key_position(entries, key, n) matches Some(k) ==> k < n && entries[k as int].0 == key,
        key_position(entries, key, n) is None ==> forall|i: int| 0 <= i < n ==> (#[trigger] entries[i]).0 != key,
    decreases n,
{
    if n > 0 {
        lemma_key_position(entries, key, (n - 1) as nat);
    }
}

/// Keying the first `n` resolved wheels by file name keeps each file name
/// once, maps it to a wheel whose own file name it is, and leaves out no
/// resolved wheel's file name.
proof fn lemma_by_file_name(projects: Seq<ProjectWheels>, resolved: Seq<(usize, usize, usize)>, n: nat)
    requires
        resolved_in(projects, resolved),
        n <= resolved.len(),
    ensures
        ({
            let e = spec_by_file_name(projects, resolved, n);
            &&& forall|i: int|
                0 <= i < e.len() ==> (#[trigger] e[i]).1 < projects.len() && e[i].2 < projects[e[i].1 as int].wheels@.len()
                    && e[i].0 == projects[e[i].1 as int].wheels@[e[i].2 as int].file_name@
            &&& forall|i: int, j: int| 0 <= i < j < e.len() ==> (#[trigger] e[i]).0 != (#[trigger] e[j]).0
            &&& forall|k: int|
                0 <= k < n ==> exists|i: int|
                    0 <= i < e.len() && (#[trigger] e[i]).0 == projects[(#[trigger] resolved[k]).1 as int].wheels@[resolved[k].2 as int].file_name@
        }),
    decreases n,
{
    if n > 0 {
        lemma_by_file_name(projects, resolved, (n - 1) as nat);
        let before = spec_by_file_name(projects, resolved, (n - 1) as nat);
        let (r, p, w) = resolved[n - 1];
        assert(resolved[n - 1].1 < projects.len());
        let name = projects[p as int].wheels@[w as int].file_name@;
        lemma_key_position(before, name, before.len());
        let e = spec_by_file_name(projects, resolved, n);
        match key_position(before, name, before.len()) {
            Some(x) => {
                assert(e == before.update(x as int, (name, p, w)));
                assert forall|k: int| 0 <= k < n implies exists|i: int|
                    0 <= i < e.len() && (#[trigger] e[i]).0 == projects[(#[trigger] resolved[k]).1 as int].wheels@[resolved[k].2 as int].file_name@ by {
                    if k == n - 1 {
                        assert(e[x as int].0 == name);
                    } else {
                        let i0 = choose|i: int|
                            0 <= i < before.len() && (#[trigger] before[i]).0 == projects[resolved[k].1 as int].wheels@[resolved[k].2 as int].file_name@;
                        assert(e[i0].0 == before[i0].0);
                    }
                }
            },
            None => {
                assert(e == before.push((name, p, w)));
                assert forall|k: int| 0 <= k < n implies exists|i: int|
                    0 <= i < e.len() && (#[trigger] e[i]).0 == projects[(#[trigger] resolved[k]).1 as int].wheels@[resolved[k].2 as int].file_name@ by {
                    if k == n - 1 {
                        assert(e[before.len() as int].0 == name);
                    } else {
                        let i0 = choose|i: int|
                            0 <= i < before.len() && (#[trigger] before[i]).0 == projects[resolved[k].1 as int].wheels@[resolved[k].2 as int].file_name@;
                        assert(e[i0].0 == before[i0].0);
                    }
                }
            },
        }
    }
}

/// Every wheel the first `n` resolved wheels keyed by file name map to was
/// resolved.
proof fn lemma_by_file_name_origin(projects: Seq<ProjectWheels>, resolved: Seq<(usize, usize, usize)>, n: nat)
    requires
        n <= resolved.len(),
    ensures
        ({
            let e = spec_by_file_name(projects, resolved, n);
            forall|i: int|
                0 <= i < e.len() ==> exists|k: int|
                    0 <= k < n && (#[trigger] resolved[k]).1 == (#[trigger] e[i]).1 && resolved[k].2 == e[i].2
        }),
    decreases n,
{
    if n > 0 {
        lemma_by_file_name_origin(projects, resolved, (n - 1) as nat);
        let before = spec_by_file_name(projects, resolved, (n - 1) as nat);
        let (r, p, w) = resolved[n - 1];
        let name = projects[p as int].wheels@[w as int].file_name@;
        lemma_key_position(before, name, before.len());
        let e = spec_by_file_name(projects, resolved, n);
        assert forall|i: int| 0 <= i < e.len() implies exists|k: int|
            0 <= k < n && (#[trigger] resolved[k]).1 == (#[trigger] e[i]).1 && resolved[k].2 == e[i].2 by {
            match key_position(before, name, before.len()) {
                Some(x) => {
                    assert(e == before.update(x as int, (name, p, w)));
                    if i == x {
                        assert(resolved[n - 1].1 == e[i].1);
                    } else {
                        let k0 = choose|k: int|
                            0 <= k < n - 1 && (#[trigger] resolved[k]).1 == (#[trigger] before[i]).1 && resolved[k].2 == before[i].2;
                        assert(resolved[k0].1 == e[i].1);
                    }
                },
                None => {
                    assert(e == before.push((name, p, w)));
                    if i == before.len() {
                        assert(resolved[n - 1].1 == e[i].1);
                    } else {
                        let k0 = choose|k: int|
                            0 <= k < n - 1 && (#[trigger] resolved[k]).1 == (#[trigger] before[i]).1 && resolved[k].2 == before[i].2;
                        assert(resolved[k0].1 == e[i].1);
                    }
                },
            }
        }
    }
}

/// What [`by_file_name`] gives is keyed by each wheel's own file name: every
/// key is the file name of the wheel it maps to, no key comes twice, every
/// resolved wheel's file name is a key, and every wheel a key maps to was
/// resolved.
pub proof fn law_keyed_by_own_file_name(projects: Seq<ProjectWheels>, resolved: Seq<(usize, usize, usize)>)
    requires
        resolved_in(projects, resolved),
    ensures
        ({
            let e = spec_by_file_name(projects, resolved, resolved.len());
            &&& forall|i: int|
                0 <= i < e.len() ==> (#[trigger] e[i]).1 < projects.len() && e[i].2 < projects[e[i].1 as int].wheels@.len()
                    && e[i].0 == projects[e[i].1 as int].wheels@[e[i].2 as int].file_name@
            &&& forall|i: int, j: int| 0 <= i < j < e.len() ==> (#[trigger] e[i]).0 != (#[trigger] e[j]).0
            &&& forall|k: int|
                0 <= k < resolved.len() ==> exists|i: int|
                    0 <= i < e.len() && (#[trigger] e[i]).0 == projects[(#[trigger] resolved[k]).1 as int].wheels@[resolved[k].2 as int].file_name@
            &&& forall|i: int|
                0 <= i < e.len() ==> exists|k: int|
                    0 <= k < resolved.len() && (#[trigger] resolved[k]).1 == (#[trigger] e[i]).1 && resolved[k].2 == e[i].2
        }),
{
    lemma_by_file_name(projects, resolved, resolved.len());
    lemma_by_file_name_origin(projects, resolved, resolved.len());
}

/// Entries keyed by text, as mathematical values.
pub open spec fn entries_view(entries: Seq<(String, usize, usize)>) -> Seq<(Seq<char>, usize, usize)> {
    entries.map_values(|e: (String, usize, usize)| (e.0@, e.1, e.2))
}

/// The position of the entry keyed `key`, the last one where there are
/// several.
fn find_key(entries: &Vec<(String, usize, usize)>, key: &String) -> (res: Option<usize>)
    ensures
        match res {
            Some(k) => key_position(entries_view(entries@), key@, entries@.len()) == Some(k as nat)
                && k < entries@.len(),
            None => key_position(entries_view(entries@), key@, entries@.len()) is None,
        },
{
    let ghost e = entries_view(entries@);
    let mut k: usize = entries.len();
    while k > 0
        invariant
            k <= entries@.len(),
            e == entries_view(entries@),
            key_position(e, key@, e.len()) == key_position(e, key@, k as nat),
        decreases k,
    {
        if entries[k - 1].0 == *key {
            assert(e[k - 1].0 == key@);
            return Some(k - 1);
        }
        assert(e[k - 1].0 != key@);
        k = k - 1;
    }
    None
}

/// The resolved wheels keyed by their own file names: each file name once,
/// in the order it was first resolved, with the (project, wheel) it was
/// last resolved as.
pub fn by_file_name(projects: &Vec<ProjectWheels>, resolved: &Vec<(usize, usize, usize)>) -> (res: Vec<
    (String, usize, usize),
>)
    requires
        resolved_in(projects@, resolved@),
    ensures
        entries_view(res@) == spec_by_file_name(projects@, resolved@, resolved@.len()),
{
    let mut out: Vec<(String, usize, usize)> = Vec::new();
    let mut i: usize = 0;
    while i < resolved.len()
        invariant
            i <= resolved@.len(),
            resolved_in(projects@, resolved@),
            entries_view(out@) == spec_by_file_name(projects@, resolved@, i as nat),
        decreases resolved@.len() - i,
    {
        let (_, p, w) = resolved[i];
        assert(resolved@[i as int].1 < projects@.len());
        let name = projects[p].wheels[w].file_name.clone();
        let ghost before = entries_view(out@);
        match find_key(&out, &name) {
            Some(k) => {
                out.set(k, (name, p, w));
                assert(entries_view(out@) =~= before.update(k as int, (name@, p, w)));
            },
            None => {
                out.push((name, p, w));
                assert(entries_view(out@) =~= before.push((name@, p, w)));
            },
        }
        i = i + 1;
    }
    out
}

/// The rank of a wheel from its tags on: the rank of the first of its tags
/// the target supports, a tag's rank being its position among the supported
/// tags (the last one, where a tag is listed twice).
pub open spec fn spec_wheel_rank(tags: Seq<Seq<char>>, supported: Seq<Seq<char>>, i: nat) -> Option<nat>
    decreases tags.len() - i,
{
    if i >= tags.len() {
        None
    } else {
        match last_index(supported, tags[i as int], supported.len()) {
            Some(k) => Some(k),
            None => spec_wheel_rank(tags, supported, i + 1),
        }
    }
}

/// The rank of a wheel with tags `tags` among the tags a target supports,
/// best first; `None` when the target supports none of them.
pub fn wheel_rank(tags: &Vec<String>, supported: &Vec<String>) -> (rank: Option<usize>)
    ensures
        match rank {
            Some(k) => spec_wheel_rank(views(tags@), views(supported@), 0) == Some(k as nat),
            None => spec_wheel_rank(views(tags@), views(supported@), 0) is None,
        },
{
    let ghost t = views(tags@);
    let ghost sup = views(supported@);
    let mut i: usize = 0;
    while i < tags.len()
        invariant
            i <= tags@.len(),
            t == views(tags@),
            sup == views(supported@),
            spec_wheel_rank(t, sup, 0) == spec_wheel_rank(t, sup, i as nat),
        decreases tags@.len() - i,
    {
        let mut k: usize = supported.len();
        while k > 0
            invariant
                k <= supported@.len(),
                i < tags@.len(),
                t == views(tags@),
                sup == views(supported@),
                spec_wheel_rank(t, sup, 0) == spec_wheel_rank(t, sup, i as nat),
                last_index(sup, t[i as int], sup.len()) == last_index(sup, t[i as int], k as nat),
            decreases k,
        {
            if supported[k - 1] == tags[i] {
                assert(sup[k - 1] == t[i as int]);
                assert(last_index(sup, t[i as int], k as nat) == Some((k - 1) as nat));
                assert(spec_wheel_rank(t, sup, i as nat) == Some((k - 1) as nat));
                return Some(k - 1);
            }
            assert(sup[k - 1] != t[i as int]);
            k = k - 1;
        }
        assert(last_index(sup, t[i as int], 0) is None);
        assert(spec_wheel_rank(t, sup, i as nat) == spec_wheel_rank(t, sup, (i + 1) as nat));
        i = i + 1;
    }
    None
}

/// Whether the version specifiers the `pep440_rs` crate reads from the
/// text `requires_python` admit the version it reads from `version`
/// (`VersionSpecifiers::contains`).
pub uninterp spec fn pep440_requires_python_admits(requires_python: Seq<char>, version: Seq<char>) -> bool;

/// `VersionSpecifiers::from_str`, `Version::from_str` and
/// `VersionSpecifiers::contains` of the `pep440_rs` crate: whether the
/// `Requires-Python` text `requires_python` admits the Python version
/// `version`; `None` exactly where the crate refuses either text.
#[verifier::external_body]
fn requires_python_admits(requires_python: &str, version: &str) -> (res: Option<bool>)
    ensures
        res is Some <==> (crate::constraints::pep440_specifiers_accept(requires_python@) && crate::markers::pep440_accepts(
            version@,
        )),
        res matches Some(b) ==> b == pep440_requires_python_admits(requires_python@, version@),
{
    let specifiers = <pep440_rs::VersionSpecifiers as std::str::FromStr>::from_str(requires_python).ok()?;
    let version = <pep440_rs::Version as std::str::FromStr>::from_str(version).ok()?;
    Some(specifiers.contains(&version))
}

/// An optional text as a mathematical value.
pub open spec fn opt_view(o: Option<String>) -> Option<Seq<char>> {
    match o {
        Some(t) => Some(t@),
        None => None,
    }
}

/// Whether a wheel's `Requires-Python`, if it states one, admits `version`.
pub open spec fn python_admitted(requires_python: Option<Seq<char>>, version: Seq<char>) -> bool {
    match requires_python {
        Some(t) => pep440_requires_python_admits(t, version),
        None => true,
    }
}

/// Whether the crates refuse a wheel's `Requires-Python` or the version it
/// is checked against.
pub open spec fn python_refused(requires_python: Option<Seq<char>>, version: Seq<char>) -> bool {
    match requires_python {
        Some(t) => !crate::constraints::pep440_specifiers_accept(t) || !crate::markers::pep440_accepts(version),
        None => false,
    }
}

/// The wheels among the first `n` that the target can install, each as its
/// position and rank: one of its tags is supported, and its
/// `Requires-Python`, if any, admits the target's Python version.
pub open spec fn spec_compatible(
    tags: Seq<Vec<String>>,
    requires_python: Seq<Option<String>>,
    supported: Seq<Seq<char>>,
    version: Seq<char>,
    n: nat,
) -> Seq<(usize, usize)>
    decreases n,
{
    if n == 0 {
        Seq::empty()
    } else {
        let before = spec_compatible(tags, requires_python, supported, version, (n - 1) as nat);
        match spec_wheel_rank(views(tags[n - 1]@), supported, 0) {
            Some(k) => if python_admitted(opt_view(requires_python[n - 1]), version) {
                before.push(((n - 1) as usize, k as usize))
            } else {
                before
            },
            None => before,
        }
    }
}

/// Every wheel [`compatible_wheels`] keeps can be installed on the target:
/// it is one of the wheels given, its rank is that of its best supported
/// tag, and its `Requires-Python`, if any, admits the target's version; the
/// wheels keep their order.
pub proof fn law_compatible_wheels_installable(
    tags: Seq<Vec<String>>,
    requires_python: Seq<Option<String>>,
    supported: Seq<Seq<char>>,
    version: Seq<char>,
    n: nat,
)
    requires
        n <= tags.len(),
        tags.len() == requires_python.len(),
        tags.len() <= usize::MAX,
        supported.len() <= usize::MAX,
    ensures
        ({
            let c = spec_compatible(tags, requires_python, supported, version, n);
            &&& forall|i: int|
                0 <= i < c.len() ==> (#[trigger] c[i]).0 < n && (spec_wheel_rank(views(tags[c[i].0 as int]@), supported, 0)
                    matches Some(k) && c[i].1 == k as usize) && python_admitted(
                    opt_view(requires_python[c[i].0 as int]),
                    version,
                )
            &&& forall|i: int, j: int| 0 <= i < j < c.len() ==> (#[trigger] c[i]).0 < (#[trigger] c[j]).0
        }),
    decreases n,
{
    if n > 0 {
        law_compatible_wheels_installable(tags, requires_python, supported, version, (n - 1) as nat);
        lemma_wheel_rank_below(views(tags[n - 1]@), supported, 0);
    }
}

/// A wheel's rank is the position of one of the supported tags.
proof fn lemma_wheel_rank_below(tags: Seq<Seq<char>>, supported: Seq<Seq<char>>, i: nat)
    ensures
        spec_wheel_rank(tags, supported, i) matches Some(k) ==> k < supported.len(),
    decreases tags.len() - i,
{
    if i < tags.len() {
        lemma_last_index_below(supported, tags[i as int], supported.len());
        lemma_wheel_rank_below(tags, supported, i + 1);
    }
}

/// A tag's last position among the first `n` supported tags is below `n`.
proof fn lemma_last_index_below(supported: Seq<Seq<char>>, tag: Seq<char>, n: nat)
    ensures
        last_index(supported, tag, n) matches Some(k) ==> k < n,
    decreases n,
{
    if n > 0 {
        lemma_last_index_below(supported, tag, (n - 1) as nat);
    }
}

/// The wheels with the tags `tags[i]` and `Requires-Python` texts
/// `requires_python[i]` that a target with the supported tags `supported`
/// (best first) and the Python version `version` can install, in their
/// order, each with its rank; `None` exactly where the crates refuse the
/// `Requires-Python` of a wheel with a supported tag, or the version
/// against it.
pub fn compatible_wheels(
    tags: &Vec<Vec<String>>,
    requires_python: &Vec<Option<String>>,
    supported: &Vec<String>,
    version: &str,
) -> (res: Option<Vec<(usize, usize)>>)
    requires
        tags@.len() == requires_python@.len(),
    ensures
        res is None <==> exists|i: int|
            0 <= i < tags@.len() && spec_wheel_rank(views(tags@[i]@), views(supported@), 0) is Some
                && #[trigger] python_refused(opt_view(requires_python@[i]), version@),
        res matches Some(v) ==> v@ == spec_compatible(
            tags@,
            requires_python@,
            views(supported@),
            version@,
            tags@.len(),
        ),
{
    let ghost sup = views(supported@);
    let mut out: Vec<(usize, usize)> = Vec::new();
    let mut i: usize = 0;
    while i < tags.len()
        invariant
            i <= tags@.len(),
            tags@.len() == requires_python@.len(),
            sup == views(supported@),
            out@ == spec_compatible(tags@, requires_python@, sup, version@, i as nat),
            forall|j: int|
                0 <= j < i && spec_wheel_rank(views(tags@[j]@), sup, 0) is Some ==> !#[trigger] python_refused(
                    opt_view(requires_python@[j]),
                    version@,
                ),
        decreases tags@.len() - i,
    {
        if let Some(rank) = wheel_rank(&tags[i], supported) {
            let admitted = match &requires_python[i] {
                Some(t) => match requires_python_admits(t.as_str(), version) {
                    Some(b) => b,
                    None => {
                        assert(python_refused(opt_view(requires_python@[i as int]), version@));
                        return None;
                    },
                },
                None => true,
            };
            if admitted {
                out.push((i, rank));
            }
        }
        i = i + 1;
    }
    Some(out)
}

/// Whether wheel `a` comes before wheel `b`: a better rank, or the same rank
/// and an earlier position.
pub open spec fn rank_before(ranks: Seq<usize>, a: usize, b: usize) -> bool {
    ranks[a as int] < ranks[b as int] || (ranks[a as int] == ranks[b as int] && a < b)
}

/// Whether wheel positions are in rank order, equal ranks in the order of
/// their positions.
pub open spec fn rank_sorted(ranks: Seq<usize>, s: Seq<usize>) -> bool {
    forall|i: int, j: int| 0 <= i < j < s.len() ==> rank_before(ranks, #[trigger] s[i], #[trigger] s[j])
}

/// The project names among the first `n`, each once, in the order they
/// first appear.
pub open spec fn distinct_names(names: Seq<Seq<char>>, n: nat) -> Seq<Seq<char>>
    decreases n,
{
    if n == 0 {
        Seq::empty()
    } else {
        let before = distinct_names(names, (n - 1) as nat);
        if before.contains(names[n - 1]) {
            before
        } else {
            before.push(names[n - 1])
        }
    }
}

/// Whether `members` are the positions among the first `n` of the wheels
/// of project `name`, in rank order.
pub open spec fn group_of(
    names: Seq<Seq<char>>,
    ranks: Seq<usize>,
    n: nat,
    name: Seq<char>,
    members: Seq<usize>,
) -> bool {
    &&& rank_sorted(ranks, members)
    &&& forall|i: usize| #[trigger] members.contains(i) <==> (i < n && names[i as int] == name)
}

/// `v` with `x` inserted in rank order, `x` coming after every wheel in `v`.
fn inserted(v: &Vec<usize>, x: usize, ranks: &Vec<usize>) -> (out: Vec<usize>)
    requires
        x < ranks@.len(),
        rank_sorted(ranks@, v@),
        forall|j: int| 0 <= j < v@.len() ==> #[trigger] v@[j] < x,
    ensures
        rank_sorted(ranks@, out@),
        forall|y: usize| #[trigger] out@.contains(y) <==> (v@.contains(y) || y == x),
{
    let mut out: Vec<usize> = Vec::new();
    let mut k: usize = 0;
    while k < v.len()
        invariant
            k <= v@.len(),
            x < ranks@.len(),
            forall|j: int| 0 <= j < v@.len() ==> #[trigger] v@[j] < x,
            out@ == v@.take(k as int),
            forall|j: int| 0 <= j < k ==> ranks@[#[trigger] v@[j] as int] <= ranks@[x as int],
        ensures
            k <= v@.len(),
            out@ == v@.take(k as int),
            forall|j: int| 0 <= j < k ==> ranks@[#[trigger] v@[j] as int] <= ranks@[x as int],
            k < v@.len() ==> ranks@[v@[k as int] as int] > ranks@[x as int],
        decreases v@.len() - k,
    {
        if ranks[v[k]] > ranks[x] {
            break;
        }
        out.push(v[k]);
        k = k + 1;
        assert(out@ =~= v@.take(k as int));
    }
    let k0 = k;
    out.push(x);
    while k < v.len()
        invariant
            k0 <= k <= v@.len(),
            out@ == v@.take(k0 as int) + seq![x] + v@.subrange(k0 as int, k as int),
        decreases v@.len() - k,
    {
        out.push(v[k]);
        k = k + 1;
        assert(out@ =~= v@.take(k0 as int) + seq![x] + v@.subrange(k0 as int, k as int));
    }
    proof {
        let o = out@;
        assert(o =~= v@.take(k0 as int) + seq![x] + v@.skip(k0 as int));
        assert(k0 < v@.len() ==> ranks@[v@[k0 as int] as int] > ranks@[x as int]);
        assert forall|i: int, j: int| 0 <= i < j < o.len() implies rank_before(ranks@, #[trigger] o[i], #[trigger] o[j]) by {
            if j < k0 {
                assert(o[i] == v@[i] && o[j] == v@[j]);
            } else if j == k0 {
                assert(o[i] == v@[i]);
            } else if i < k0 {
                assert(o[i] == v@[i] && o[j] == v@[j - 1]);
            } else if i == k0 {
                assert(o[j] == v@[j - 1]);
                if j - 1 > k0 {
                    assert(rank_before(ranks@, v@[k0 as int], v@[j - 1]));
                }
            } else {
                assert(o[i] == v@[i - 1] && o[j] == v@[j - 1]);
            }
        }
        assert forall|y: usize| #[trigger] o.contains(y) <==> (v@.contains(y) || y == x) by {
            if o.contains(y) {
                let i = choose|i: int| 0 <= i < o.len() && o[i] == y;
                if i < k0 {
                    assert(v@[i] == y);
                } else if i > k0 {
                    assert(v@[i - 1] == y);
                }
            }
            if v@.contains(y) {
                let i = choose|i: int| 0 <= i < v@.len() && v@[i] == y;
                if i < k0 {
                    assert(o[i] == y);
                } else {
                    assert(o[i + 1] == y);
                }
            }
            if y == x {
                assert(o[k0 as int] == x);
            }
        }
    }
    out
}

/// Groups ranked wheels by project: the project names `names[i]` of the
/// wheels, each once in the order they first appear, and for each the
/// positions of its wheels in rank order, equal ranks keeping their order.
pub fn group_by_project(names: &Vec<String>, ranks: &Vec<usize>) -> (groups: (Vec<String>, Vec<Vec<usize>>))
    requires
        names@.len() == ranks@.len(),
    ensures
        views(groups.0@) == distinct_names(views(names@), names@.len()),
        groups.1@.len() == groups.0@.len(),
        forall|g: int|
            0 <= g < groups.0@.len() ==> group_of(
                views(names@),
                ranks@,
                names@.len(),
                #[trigger] groups.0@[g]@,
                groups.1@[g]@,
            ),
{
    let ghost nv = views(names@);
    let mut group_names: Vec<String> = Vec::new();
    let mut members: Vec<Vec<usize>> = Vec::new();
    let mut i: usize = 0;
    while i < names.len()
        invariant
            i <= names@.len(),
            names@.len() == ranks@.len(),
            nv == views(names@),
            views(group_names@) == distinct_names(nv, i as nat),
            members@.len() == group_names@.len(),
            forall|g: int|
                0 <= g < group_names@.len() ==> group_of(nv, ranks@, i as nat, #[trigger] group_names@[g]@, members@[g]@),
        decreases names@.len() - i,
    {
        let ghost gv = views(group_names@);
        let mut g: usize = 0;
        while g < group_names.len()
            invariant
                g <= group_names@.len(),
                i < names@.len(),
                nv == views(names@),
                gv == views(group_names@),
                forall|h: int| 0 <= h < g ==> gv[h] != nv[i as int],
            ensures
                g <= group_names@.len(),
                forall|h: int| 0 <= h < g ==> gv[h] != nv[i as int],
                g < group_names@.len() ==> gv[g as int] == nv[i as int],
            decreases group_names@.len() - g,
        {
            if group_names[g] == names[i] {
                assert(gv[g as int] == group_names@[g as int]@);
                break;
            }
            assert(gv[g as int] == group_names@[g as int]@);
            g = g + 1;
        }
        let ghost old_members = members@;
        if g < group_names.len() {
            assert(gv[g as int] == nv[i as int]);
            assert(distinct_names(nv, (i + 1) as nat) == distinct_names(nv, i as nat));
            assert forall|j: int| 0 <= j < members@[g as int]@.len() implies #[trigger] members@[g as int]@[j] < i by {
                assert(members@[g as int]@.contains(members@[g as int]@[j]));
                assert(group_of(nv, ranks@, i as nat, group_names@[g as int]@, members@[g as int]@));
            }
            let m = inserted(&members[g], i, ranks);
            members.set(g, m);
            proof {
                assert forall|h: int| 0 <= h < group_names@.len() implies group_of(
                    nv,
                    ranks@,
                    (i + 1) as nat,
                    #[trigger] group_names@[h]@,
                    members@[h]@,
                ) by {
                    assert(gv[h] == group_names@[h]@);
                    if h != g {
                        assert(members@[h] == old_members[h]);
                        assert(group_names@[h]@ != nv[i as int]) by {
                            if group_names@[h]@ == nv[i as int] {
                                lemma_distinct_names_distinct(nv, i as nat);
                                assert(gv[h] == gv[g as int]);
                            }
                        }
                    }
                }
            }
        } else {
            assert(!gv.contains(nv[i as int]));
            let name = names[i].clone();
            group_names.push(name);
            let mut m: Vec<usize> = Vec::new();
            m.push(i);
            members.push(m);
            proof {
                assert(views(group_names@) =~= gv.push(nv[i as int]));
                assert forall|h: int| 0 <= h < group_names@.len() implies group_of(
                    nv,
                    ranks@,
                    (i + 1) as nat,
                    #[trigger] group_names@[h]@,
                    members@[h]@,
                ) by {
                    if h < gv.len() {
                        assert(gv[h] == group_names@[h]@);
                        assert(members@[h] == old_members[h]);
                        assert(gv[h] != nv[i as int]);
                    } else {
                        let mm = members@[h]@;
                        assert(mm =~= seq![i]);
                        assert(mm[0] == i);
                        assert forall|y: usize| #[trigger] mm.contains(y) <==> (y < i + 1 && nv[y as int] == nv[i as int]) by {
                            if y < i && nv[y as int] == nv[i as int] {
                                lemma_distinct_names_cover(nv, i as nat, y as nat);
                            }
                            if mm.contains(y) {
                                assert(mm[0] == y);
                            }
                        }
                    }
                }
            }
        }
        i = i + 1;
    }
    (group_names, members)
}

proof fn lemma_distinct_names_cover(names: Seq<Seq<char>>, n: nat, k: nat)
    requires
        k < n <= names.len(),
    ensures
        distinct_names(names, n).contains(names[k as int]),
    decreases n,
{
    let before = distinct_names(names, (n - 1) as nat);
    if k < n - 1 {
        lemma_distinct_names_cover(names, (n - 1) as nat, k);
        if !before.contains(names[n - 1]) {
            let j = choose|j: int| 0 <= j < before.len() && before[j] == names[k as int];
            assert(before.push(names[n - 1])[j] == names[k as int]);
        }
    } else if !before.contains(names[n - 1]) {
        assert(before.push(names[n - 1])[before.len() as int] == names[k as int]);
    }
}

proof fn lemma_distinct_names_distinct(names: Seq<Seq<char>>, n: nat)
    requires
        n <= names.len(),
    ensures
        distinct_names(names, n).no_duplicates(),
    decreases n,
{
    if n > 0 {
        lemma_distinct_names_distinct(names, (n - 1) as nat);
    }
}

/// The kind number the `pep508_rs` requirement name gives a version
/// constraint: none (0), specifiers (1) or a URL (2).
pub open spec fn constraint_kind(v: VersionConstraint) -> nat {
    match v {
        VersionConstraint::Any => 0,
        VersionConstraint::Specifiers => 1,
        VersionConstraint::Url => 2,
    }
}

/// The requirement the text `s` states, as the resolver works with it: its
/// normalised name and extras and what it says of versions; `None` where
/// the `pep508_rs` crate refuses the text.
pub fn requirement_from_text(s: &str) -> (res: Option<Requirement>)
    ensures
        match res {
            Some(r) => match pep508_requirement(s@) {
                Some((name, extras, _, kind)) => r.name@ == name && views(r.extras@) == extras
                    && constraint_kind(r.version) == kind,
                None => false,
            },
            None => pep508_requirement(s@) is None,
        },
{
    match parse_requirement(s) {
        None => None,
        Some(parts) => {
            let version = match parts.version {
                RequirementVersion::Unversioned => VersionConstraint::Any,
                RequirementVersion::Specifiers(_) => VersionConstraint::Specifiers,
                RequirementVersion::Url => VersionConstraint::Url,
            };
            Some(Requirement { name: parts.name, extras: parts.extras, version })
        },
    }
}

/// Whether each resolved (requirement, project, wheel) triple picks a wheel
/// of the requirement's project that it admits: a project of the
/// requirement's name, one of its wheels, whose version the requirement's
/// specifiers admit when it has some, and never for a URL requirement; no
/// wheel of the project before it is admitted (without specifiers, the
/// first wheel is picked).
pub open spec fn picks_admitted(
    projects: Seq<ProjectWheels>,
    reqs: Seq<Requirement>,
    d: Decisions,
    resolved: Seq<(usize, usize, usize)>,
) -> bool {
    forall|i: int|
        0 <= i < resolved.len() ==> {
            let (r, p, w) = #[trigger] resolved[i];
            &&& p < projects.len()
            &&& projects[p as int].name@ == reqs[r as int].name@
            &&& w < projects[p as int].wheels@.len()
            &&& reqs[r as int].version != VersionConstraint::Url
            &&& reqs[r as int].version == VersionConstraint::Specifiers ==> d.contains@[r as int]@[p as int]@[w as int]
            &&& w > 0 ==> reqs[r as int].version == VersionConstraint::Specifiers
            &&& forall|k: int| 0 <= k < w ==> !#[trigger] d.contains@[r as int]@[p as int]@[k]
        }
}

/// Whether the number of projects and of each project's wheels fit in a
/// `usize`, as those of vectors do.
pub open spec fn lengths_fit(projects: Seq<ProjectWheels>) -> bool {
    &&& projects.len() <= usize::MAX
    &&& forall|p: int| 0 <= p < projects.len() ==> (#[trigger] projects[p]).wheels@.len() <= usize::MAX
}

proof fn lemma_project_from(projects: Seq<ProjectWheels>, name: Seq<char>, i: nat)
    ensures
        project_from(projects, name, i) matches Some(p) ==> p < projects.len() && projects[p as int].name@ == name,
    decreases projects.len() - i,
{
    if i < projects.len() && projects[i as int].name@ != name {
        lemma_project_from(projects, name, i + 1);
    }
}

proof fn lemma_first_admitted(d: Decisions, r: usize, p: nat, count: nat, i: nat)
    ensures
        first_admitted(d, r, p, count, i) matches Some(w) ==> w < count && d.contains@[r as int]@[p as int]@[w as int]
            && i <= w && forall|k: int| i <= k < w ==> !#[trigger] d.contains@[r as int]@[p as int]@[k],
    decreases count - i,
{
    if i < count && !d.contains@[r as int]@[p as int]@[i as int] {
        lemma_first_admitted(d, r, p, count, i + 1);
    }
}

proof fn lemma_step_picks_admitted(
    projects: Seq<ProjectWheels>,
    reqs: Seq<Requirement>,
    d: Decisions,
    ignore_errors: bool,
    s: ResolveState,
)
    requires
        picks_admitted(projects, reqs, d, s.resolved),
        lengths_fit(projects),
    ensures
        step(projects, reqs, d, ignore_errors, s) matches Step::Next(next) ==> picks_admitted(
            projects,
            reqs,
            d,
            next.resolved,
        ),
{
    if s.head < s.queue.len() {
        let (r, x) = s.queue[s.head as int];
        lemma_project_from(projects, reqs[r as int].name@, 0);
        match project_from(projects, reqs[r as int].name@, 0) {
            Some(p) => {
                let count = projects[p as int].wheels@.len();
                lemma_first_admitted(d, r, p, count, 0);
                if let Step::Next(next) = step(projects, reqs, d, ignore_errors, s) {
                    if next.resolved.len() > s.resolved.len() {
                        assert forall|i: int| 0 <= i < next.resolved.len() implies {
                            let (r2, p2, w2) = #[trigger] next.resolved[i];
                            &&& p2 < projects.len()
                            &&& projects[p2 as int].name@ == reqs[r2 as int].name@
                            &&& w2 < projects[p2 as int].wheels@.len()
                            &&& reqs[r2 as int].version != VersionConstraint::Url
                            &&& reqs[r2 as int].version == VersionConstraint::Specifiers
                                ==> d.contains@[r2 as int]@[p2 as int]@[w2 as int]
                            &&& w2 > 0 ==> reqs[r2 as int].version == VersionConstraint::Specifiers
                            &&& forall|k: int| 0 <= k < w2 ==> !#[trigger] d.contains@[r2 as int]@[p2 as int]@[k]
                        } by {
                            if i < s.resolved.len() {
                                assert(next.resolved[i] == s.resolved[i]);
                            } else {
                                match reqs[r as int].version {
                                    VersionConstraint::Any => {
                                        assert(next == resolve_with(projects, reqs, d, s, r, p, 0));
                                        assert(next.resolved[i] == (r, p as usize, 0usize));
                                    },
                                    VersionConstraint::Specifiers => {
                                        let w = first_admitted(d, r, p, count, 0)->0;
                                        assert(next == resolve_with(projects, reqs, d, s, r, p, w));
                                        assert(next.resolved[i] == (r, p as usize, w as usize));
                                        assert(w < count);
                                        assert((w as usize) as int == w);
                                        assert forall|k: int| 0 <= k < (w as usize) implies !#[trigger] d.contains@[r as int]@[p as int]@[k] by {
                                            assert(0 <= k < w);
                                        }
                                    },
                                    VersionConstraint::Url => {},
                                }
                            }
                        }
                    }
                }
            },
            None => {},
        }
    }
}

/// A resolve only ever picks, for each requirement it resolves, a wheel of
/// the project of the requirement's name whose version the requirement
/// admits.
pub proof fn law_resolve_picks_admitted(
    projects: Seq<ProjectWheels>,
    reqs: Seq<Requirement>,
    d: Decisions,
    ignore_errors: bool,
    s: ResolveState,
    fuel: nat,
)
    requires
        picks_admitted(projects, reqs, d, s.resolved),
        lengths_fit(projects),
    ensures
        run(projects, reqs, d, ignore_errors, s, fuel) matches Some(Ok(resolved)) ==> picks_admitted(
            projects,
            reqs,
            d,
            resolved,
        ),
    decreases fuel,
{
    if fuel > 0 {
        lemma_step_picks_admitted(projects, reqs, d, ignore_errors, s);
        if let Step::Next(next) = step(projects, reqs, d, ignore_errors, s) {
            law_resolve_picks_admitted(projects, reqs, d, ignore_errors, next, (fuel - 1) as nat);
        }
    }
}

/// Whether no resolved requirement is satisfied by one resolved before it;
/// in particular no two have the same name and extras.
pub open spec fn none_satisfied_earlier(reqs: Seq<Requirement>, resolved: Seq<(usize, usize, usize)>) -> bool {
    forall|i: int, j: int|
        0 <= i < j < resolved.len() ==> !satisfies(reqs, #[trigger] resolved[i].0, #[trigger] resolved[j].0)
}

proof fn lemma_step_none_satisfied_earlier(
    projects: Seq<ProjectWheels>,
    reqs: Seq<Requirement>,
    d: Decisions,
    ignore_errors: bool,
    s: ResolveState,
)
    requires
        none_satisfied_earlier(reqs, s.resolved),
    ensures
        step(projects, reqs, d, ignore_errors, s) matches Step::Next(next) ==> none_satisfied_earlier(
            reqs,
            next.resolved,
        ),
{
    if let Step::Next(next) = step(projects, reqs, d, ignore_errors, s) {
        if next.resolved.len() != s.resolved.len() {
            let (r, x) = s.queue[s.head as int];
            let n = s.resolved.len();
            assert(next.resolved =~= s.resolved.push(next.resolved[n as int]));
            assert(next.resolved[n as int].0 == r);
            assert forall|i: int, j: int| 0 <= i < j < next.resolved.len() implies !satisfies(
                reqs,
                #[trigger] next.resolved[i].0,
                #[trigger] next.resolved[j].0,
            ) by {
                assert(next.resolved[i] == s.resolved[i]);
                if j < n {
                    assert(next.resolved[j] == s.resolved[j]);
                }
            }
        }
    }
}

/// A resolve never resolves a requirement that one it resolved before
/// satisfies: each (name, extras) key is resolved at most once, and a
/// requirement whose extras are all among those of a resolved requirement
/// of its name is not resolved again.
pub proof fn law_resolve_none_satisfied_earlier(
    projects: Seq<ProjectWheels>,
    reqs: Seq<Requirement>,
    d: Decisions,
    ignore_errors: bool,
    s: ResolveState,
    fuel: nat,
)
    requires
        none_satisfied_earlier(reqs, s.resolved),
    ensures
        run(projects, reqs, d, ignore_errors, s, fuel) matches Some(Ok(resolved)) ==> none_satisfied_earlier(
            reqs,
            resolved,
        ),
    decreases fuel,
{
    if fuel > 0 {
        lemma_step_none_satisfied_earlier(projects, reqs, d, ignore_errors, s);
        if let Step::Next(next) = step(projects, reqs, d, ignore_errors, s) {
            law_resolve_none_satisfied_earlier(projects, reqs, d, ignore_errors, next, (fuel - 1) as nat);
        }
    }
}

/// Whether the requirement positions `rs` are all below `n`.
pub open spec fn below(rs: Seq<usize>, n: nat) -> bool {
    forall|k: int| 0 <= k < rs.len() ==> #[trigger] rs[k] < n
}

fn all_below(rs: &Vec<usize>, n: usize) -> (res: bool)
    ensures
        res == below(rs@, n as nat),
{
    let mut k: usize = 0;
    while k < rs.len()
        invariant
            k <= rs@.len(),
            forall|j: int| 0 <= j < k ==> #[trigger] rs@[j] < n,
        decreases rs@.len() - k,
    {
        if rs[k] >= n {
            return false;
        }
        k = k + 1;
    }
    true
}

/// Whether the tables fit the requirements and projects ([`inputs_wf`])
/// and the roots are requirements: what [`resolve`] needs of its inputs.
pub fn inputs_fit(projects: &Vec<ProjectWheels>, reqs: &Vec<Requirement>, d: &Decisions, roots: &Vec<usize>) -> (res:
    bool)
    ensures
        res == (inputs_wf(projects@, reqs@, *d) && below(roots@, reqs@.len())),
{
    let n = reqs.len();
    if d.applies.len() != n || d.contains.len() != n || d.excluded.len() != n || d.overridden.len() != n {
        return false;
    }
    if n == usize::MAX {
        let first = d.applies[0].len();
        assert(d.applies@[0]@.len() != n + 1);
        return false;
    }
    let mut r: usize = 0;
    while r < n
        invariant
            r <= n,
            n == reqs@.len(),
            n < usize::MAX,
            d.applies@.len() == n,
            d.contains@.len() == n,
            d.overridden@.len() == n,
            forall|q: int| 0 <= q < r ==> (#[trigger] d.applies@[q])@.len() == n + 1,
            forall|q: int| 0 <= q < r ==> (#[trigger] d.contains@[q])@.len() == projects@.len(),
            forall|q: int, p: int|
                0 <= q < r && 0 <= p < projects@.len() ==> (#[trigger] d.contains@[q]@[p])@.len()
                    == projects@[p].wheels@.len(),
            forall|q: int| 0 <= q < r ==> (#[trigger] d.overridden@[q])@.len() == n + 1,
            forall|q: int, e: int|
                0 <= q < r && 0 <= e <= n ==> match #[trigger] d.overridden@[q]@[e] {
                    Some(o) => o < n,
                    None => true,
                },
        decreases n - r,
    {
        if d.applies[r].len() != n + 1 || d.contains[r].len() != projects.len() || d.overridden[r].len() != n + 1 {
            return false;
        }
        let mut p: usize = 0;
        while p < projects.len()
            invariant
                p <= projects@.len(),
                r < n,
                d.contains@.len() == n,
                d.contains@[r as int]@.len() == projects@.len(),
                forall|p2: int| 0 <= p2 < p ==> (#[trigger] d.contains@[r as int]@[p2])@.len()
                    == projects@[p2].wheels@.len(),
            decreases projects@.len() - p,
        {
            if d.contains[r][p].len() != projects[p].wheels.len() {
                return false;
            }
            p = p + 1;
        }
        let mut e: usize = 0;
        while e <= n
            invariant
                e <= n + 1,
                n < usize::MAX,
                r < n,
                d.overridden@.len() == n,
                d.overridden@[r as int]@.len() == n + 1,
                forall|e2: int| 0 <= e2 < e ==> match #[trigger] d.overridden@[r as int]@[e2] {
                    Some(o) => o < n,
                    None => true,
                },
            decreases n + 1 - e,
        {
            match d.overridden[r][e] {
                Some(o) => {
                    if o >= n {
                        return false;
                    }
                },
                None => {},
            }
            e = e + 1;
        }
        r = r + 1;
    }
    let mut p: usize = 0;
    while p < projects.len()
        invariant
            p <= projects@.len(),
            n == reqs@.len(),
            forall|p2: int, w: int, k: int|
                0 <= p2 < p && 0 <= w < projects@[p2].wheels@.len() && 0 <= k
                    < projects@[p2].wheels@[w].requires_dists@.len() ==> #[trigger] projects@[p2].wheels@[w].requires_dists@[k]
                    < n,
        decreases projects@.len() - p,
    {
        let mut w: usize = 0;
        while w < projects[p].wheels.len()
            invariant
                p < projects@.len(),
                w <= projects@[p as int].wheels@.len(),
                n == reqs@.len(),
                forall|p2: int, w2: int, k: int|
                    0 <= p2 < p && 0 <= w2 < projects@[p2].wheels@.len() && 0 <= k
                        < projects@[p2].wheels@[w2].requires_dists@.len() ==> #[trigger] projects@[p2].wheels@[w2].requires_dists@[k]
                        < n,
                forall|w2: int, k: int|
                    0 <= w2 < w && 0 <= k < projects@[p as int].wheels@[w2].requires_dists@.len() ==> #[trigger] projects@[p as int].wheels@[w2].requires_dists@[k]
                        < n,
            decreases projects@[p as int].wheels@.len() - w,
        {
            if !all_below(&projects[p].wheels[w].requires_dists, n) {
                return false;
            }
            w = w + 1;
        }
        p = p + 1;
    }
    all_below(roots, n)
}

/// The wheels a target can install, grouped by project: the positions and
/// ranks of the compatible wheels ([`compatible_wheels`]), the project names
/// among them, each once in the order they first appear, and for each
/// project the places of its compatible wheels in that list, in rank order,
/// equal ranks keeping their order ([`group_by_project`]); `None` exactly
/// where [`compatible_wheels`] gives `None`.
pub fn rank_wheels(
    names: &Vec<String>,
    tags: &Vec<Vec<String>>,
    requires_python: &Vec<Option<String>>,
    supported: &Vec<String>,
    version: &str,
) -> (res: Option<(Vec<(usize, usize)>, Vec<String>, Vec<Vec<usize>>)>)
    requires
        names@.len() == tags@.len(),
        tags@.len() == requires_python@.len(),
    ensures
        res is None <==> exists|i: int|
            0 <= i < tags@.len() && spec_wheel_rank(views(tags@[i]@), views(supported@), 0) is Some
                && #[trigger] python_refused(opt_view(requires_python@[i]), version@),
        res matches Some(r) ==> {
            let c = r.0@;
            let cnames = c.map_values(|e: (usize, usize)| names@[e.0 as int]@);
            let cranks = c.map_values(|e: (usize, usize)| e.1);
            &&& c == spec_compatible(tags@, requires_python@, views(supported@), version@, tags@.len())
            &&& views(r.1@) == distinct_names(cnames, c.len())
            &&& r.2@.len() == r.1@.len()
            &&& forall|g: int|
                0 <= g < r.1@.len() ==> group_of(cnames, cranks, c.len(), #[trigger] r.1@[g]@, r.2@[g]@)
        },
{
    let compatible = match compatible_wheels(tags, requires_python, supported, version) {
        Some(c) => c,
        None => {
            return None;
        },
    };
    let ntags = tags.len();
    let nsupported = supported.len();
    proof {
        assert(views(supported@).len() == nsupported);
        assert(tags@.len() == ntags);
        law_compatible_wheels_installable(
            tags@,
            requires_python@,
            views(supported@),
            version@,
            tags@.len(),
        );
    }
    let mut cnames: Vec<String> = Vec::new();
    let mut cranks: Vec<usize> = Vec::new();
    let mut k: usize = 0;
    while k < compatible.len()
        invariant
            k <= compatible@.len(),
            names@.len() == tags@.len(),
            forall|i: int| 0 <= i < compatible@.len() ==> (#[trigger] compatible@[i]).0 < tags@.len(),
            cnames@.len() == k,
            cranks@.len() == k,
            forall|i: int| 0 <= i < k ==> #[trigger] cnames@[i]@ == names@[compatible@[i].0 as int]@,
            forall|i: int| 0 <= i < k ==> #[trigger] cranks@[i] == compatible@[i].1,
        decreases compatible@.len() - k,
    {
        let (w, rank) = compatible[k];
        cnames.push(names[w].clone());
        cranks.push(rank);
        k = k + 1;
    }
    let ghost c = compatible@;
    assert(views(cnames@) =~= c.map_values(|e: (usize, usize)| names@[e.0 as int]@));
    assert(cranks@ =~= c.map_values(|e: (usize, usize)| e.1));
    let (group_names, members) = group_by_project(&cnames, &cranks);
    Some((compatible, group_names, members))
}

/// The wheel files a resolve chooses from, by position: file name,
/// normalised project name, version, tags, `Requires-Python` if stated,
/// and requirements (positions in the requirement table).
pub struct WheelFiles {
    pub file_names: Vec<String>,
    pub names: Vec<String>,
    pub versions: Vec<String>,
    pub tags: Vec<Vec<String>>,
    pub requires_python: Vec<Option<String>>,
    pub requires_dists: Vec<Vec<usize>>,
}

/// Whether the lists of wheel files have one entry per wheel.
pub open spec fn files_wf(f: WheelFiles) -> bool {
    let n = f.file_names@.len();
    &&& f.names@.len() == n
    &&& f.versions@.len() == n
    &&& f.tags@.len() == n
    &&& f.requires_python@.len() == n
    &&& f.requires_dists@.len() == n
}

/// Why resolving wheel files failed.
#[derive(Debug, PartialEq, Eq)]
pub enum ResolveWheelsError {
    /// The crates refuse the `Requires-Python` of a wheel with a supported
    /// tag, or the target's version against it.
    InvalidRequiresPython,
    /// The crates refuse a requirement, an extra or a version marker.
    InvalidMarker,
    /// The crates refuse a requirement or a wheel's version.
    InvalidVersion,
    /// The requirements, their texts, the dependency decisions and the
    /// wheels' requirements do not fit together.
    Misfit,
    /// Resolving failed.
    Resolve(ResolveError),
}

/// A copy of positions.
fn copy_positions(v: &Vec<usize>) -> (c: Vec<usize>)
    ensures
        c@ == v@,
{
    let mut c: Vec<usize> = Vec::new();
    let mut i: usize = 0;
    while i < v.len()
        invariant
            i <= v@.len(),
            c@ == v@.take(i as int),
        decreases v@.len() - i,
    {
        c.push(v[i]);
        assert(v@.take(i as int).push(v@[i as int]) =~= v@.take(i as int + 1));
        i = i + 1;
    }
    assert(v@.take(v@.len() as int) =~= v@);
    c
}

/// The projects of ranked wheels: for each group, its name and its wheels
/// in group order; with each wheel's version and its position among the
/// wheel files.
fn build_projects(
    files: &WheelFiles,
    compatible: &Vec<(usize, usize)>,
    group_names: &Vec<String>,
    members: &Vec<Vec<usize>>,
) -> (res: (Vec<ProjectWheels>, Vec<Vec<String>>, Vec<Vec<usize>>))
    requires
        files_wf(*files),
        forall|k: int| 0 <= k < compatible@.len() ==> (#[trigger] compatible@[k]).0 < files.file_names@.len(),
        members@.len() == group_names@.len(),
        forall|g: int, w: int|
            0 <= g < members@.len() && 0 <= w < members@[g]@.len() ==> #[trigger] members@[g]@[w] < compatible@.len(),
    ensures
        res.0@.len() == group_names@.len(),
        res.1@.len() == group_names@.len(),
        res.2@.len() == group_names@.len(),
        lengths_fit(res.0@),
        forall|g: int|
            0 <= g < res.0@.len() ==> (#[trigger] res.0@[g]).wheels@.len() == members@[g]@.len() && res.1@[g]@.len()
                == members@[g]@.len() && res.2@[g]@.len() == members@[g]@.len() && res.0@[g].name@
                == group_names@[g]@,
        forall|g: int, w: int|
            0 <= g < res.0@.len() && 0 <= w < members@[g]@.len() ==> {
                let j = #[trigger] res.2@[g]@[w];
                &&& j == compatible@[members@[g]@[w] as int].0
                &&& j < files.file_names@.len()
                &&& res.0@[g].wheels@[w].file_name@ == files.file_names@[j as int]@
                &&& res.0@[g].wheels@[w].normalized_name == Some(files.names@[j as int])
                &&& res.0@[g].wheels@[w].requires_dists@ == files.requires_dists@[j as int]@
                &&& res.1@[g]@[w]@ == files.versions@[j as int]@
            },
{
    let mut projects: Vec<ProjectWheels> = Vec::new();
    let mut versions: Vec<Vec<String>> = Vec::new();
    let mut origins: Vec<Vec<usize>> = Vec::new();
    let mut g: usize = 0;
    while g < group_names.len()
        invariant
            g <= group_names@.len(),
            files_wf(*files),
            members@.len() == group_names@.len(),
            forall|k: int| 0 <= k < compatible@.len() ==> (#[trigger] compatible@[k]).0 < files.file_names@.len(),
            forall|g2: int, w: int|
                0 <= g2 < members@.len() && 0 <= w < members@[g2]@.len() ==> #[trigger] members@[g2]@[w]
                    < compatible@.len(),
            projects@.len() == g,
            versions@.len() == g,
            origins@.len() == g,
            lengths_fit(projects@),
            forall|q: int|
                0 <= q < g ==> (#[trigger] projects@[q]).wheels@.len() == members@[q]@.len() && versions@[q]@.len()
                    == members@[q]@.len() && origins@[q]@.len() == members@[q]@.len() && projects@[q].name@
                    == group_names@[q]@,
            forall|q: int, w: int|
                0 <= q < g && 0 <= w < members@[q]@.len() ==> {
                    let j = #[trigger] origins@[q]@[w];
                    &&& j == compatible@[members@[q]@[w] as int].0
                    &&& j < files.file_names@.len()
                    &&& projects@[q].wheels@[w].file_name@ == files.file_names@[j as int]@
                    &&& projects@[q].wheels@[w].normalized_name == Some(files.names@[j as int])
                    &&& projects@[q].wheels@[w].requires_dists@ == files.requires_dists@[j as int]@
                    &&& versions@[q]@[w]@ == files.versions@[j as int]@
                },
        decreases group_names@.len() - g,
    {
        let mut wheels: Vec<WheelInfo> = Vec::new();
        let mut wheel_versions: Vec<String> = Vec::new();
        let mut wheel_origins: Vec<usize> = Vec::new();
        let mut w: usize = 0;
        while w < members[g].len()
            invariant
                g < group_names@.len(),
                w <= members@[g as int]@.len(),
                files_wf(*files),
                members@.len() == group_names@.len(),
                forall|k: int| 0 <= k < compatible@.len() ==> (#[trigger] compatible@[k]).0 < files.file_names@.len(),
                forall|g2: int, w2: int|
                    0 <= g2 < members@.len() && 0 <= w2 < members@[g2]@.len() ==> #[trigger] members@[g2]@[w2]
                        < compatible@.len(),
                wheels@.len() == w,
                wheel_versions@.len() == w,
                wheel_origins@.len() == w,
                forall|x: int|
                    0 <= x < w ==> {
                        let j = #[trigger] wheel_origins@[x];
                        &&& j == compatible@[members@[g as int]@[x] as int].0
                        &&& j < files.file_names@.len()
                        &&& wheels@[x].file_name@ == files.file_names@[j as int]@
                        &&& wheels@[x].normalized_name == Some(files.names@[j as int])
                        &&& wheels@[x].requires_dists@ == files.requires_dists@[j as int]@
                        &&& wheel_versions@[x]@ == files.versions@[j as int]@
                    },
            decreases members@[g as int]@.len() - w,
        {
            let k = members[g][w];
            let j = compatible[k].0;
            wheels.push(
                WheelInfo {
                    file_name: files.file_names[j].clone(),
                    normalized_name: Some(files.names[j].clone()),
                    requires_dists: copy_positions(&files.requires_dists[j]),
                },
            );
            wheel_versions.push(files.versions[j].clone());
            wheel_origins.push(j);
            w = w + 1;
        }
        let count = wheels.len();
        projects.push(ProjectWheels { name: group_names[g].clone(), wheels });
        versions.push(wheel_versions);
        origins.push(wheel_origins);
        proof {
            assert(projects@[g as int].wheels@.len() == count);
        }
        g = g + 1;
    }
    (projects, versions, origins)
}

/// The rank of wheel file `j` on a target with the supported tags
/// `supported`: that of its best supported tag (0 when none is supported).
pub open spec fn file_rank(files: WheelFiles, supported: Seq<Seq<char>>, j: int) -> nat {
    match spec_wheel_rank(views(files.tags@[j]@), supported, 0) {
        Some(k) => k,
        None => 0,
    }
}

/// Whether the target can install wheel file `j`: one of its tags is
/// supported, and its `Requires-Python`, if any, admits `version`.
pub open spec fn installable(files: WheelFiles, supported: Seq<Seq<char>>, version: Seq<char>, j: int) -> bool {
    &&& spec_wheel_rank(views(files.tags@[j]@), supported, 0) is Some
    &&& python_admitted(opt_view(files.requires_python@[j]), version)
}

/// Whether wheel file `a` ranks before wheel file `b`: a better rank, or
/// the same rank and an earlier position.
pub open spec fn ranks_before(files: WheelFiles, supported: Seq<Seq<char>>, a: int, b: int) -> bool {
    ||| file_rank(files, supported, a) < file_rank(files, supported, b)
    ||| file_rank(files, supported, a) == file_rank(files, supported, b) && a < b
}

/// Whether requirement `r` (with text `texts[r]`) picks wheel file `j` as
/// the best it can: the wheel is of the requirement's project, the
/// requirement admits its version, and it admits the version of no
/// installable wheel of the project that ranks before it.
pub open spec fn picks_best(
    files: WheelFiles,
    supported: Seq<Seq<char>>,
    version: Seq<char>,
    reqs: Seq<Requirement>,
    texts: Seq<String>,
    r: int,
    j: int,
) -> bool {
    &&& reqs[r].name@ == files.names@[j]@
    &&& reqs[r].version != VersionConstraint::Url
    &&& reqs[r].version == VersionConstraint::Specifiers ==> spec_admits(texts[r]@, files.versions@[j]@)
    &&& forall|j2: int|
        0 <= j2 < files.file_names@.len() && installable(files, supported, version, j2) && files.names@[j2]@
            == files.names@[j]@ && #[trigger] ranks_before(files, supported, j2, j) ==> reqs[r].version
            == VersionConstraint::Specifiers && !spec_admits(texts[r]@, files.versions@[j2]@)
}

/// Whether some requirement picks wheel file `j` as the best it can
/// ([`picks_best`]).
pub open spec fn picked_best(
    files: WheelFiles,
    supported: Seq<Seq<char>>,
    version: Seq<char>,
    reqs: Seq<Requirement>,
    texts: Seq<String>,
    j: int,
) -> bool {
    exists|r: int| 0 <= r < reqs.len() && #[trigger] picks_best(files, supported, version, reqs, texts, r, j)
}

/// Every installable wheel among the first `n` is listed as compatible,
/// with its rank.
proof fn lemma_compatible_complete(
    tags: Seq<Vec<String>>,
    requires_python: Seq<Option<String>>,
    supported: Seq<Seq<char>>,
    version: Seq<char>,
    n: nat,
    j: int,
)
    requires
        0 <= j < n <= tags.len(),
        tags.len() == requires_python.len(),
        tags.len() <= usize::MAX,
        spec_wheel_rank(views(tags[j]@), supported, 0) is Some,
        python_admitted(opt_view(requires_python[j]), version),
    ensures
        exists|i: int|
            0 <= i < spec_compatible(tags, requires_python, supported, version, n).len() && (#[trigger] spec_compatible(
                tags,
                requires_python,
                supported,
                version,
                n,
            )[i]).0 == j,
    decreases n,
{
    let before = spec_compatible(tags, requires_python, supported, version, (n - 1) as nat);
    let c = spec_compatible(tags, requires_python, supported, version, n);
    if j == n - 1 {
        assert(c[before.len() as int].0 == j);
    } else {
        lemma_compatible_complete(tags, requires_python, supported, version, (n - 1) as nat, j);
        let i = choose|i: int| 0 <= i < before.len() && (#[trigger] before[i]).0 == j;
        assert(c[i] == before[i]);
    }
}

/// No more wheels are compatible than there are wheels.
proof fn lemma_compatible_len(
    tags: Seq<Vec<String>>,
    requires_python: Seq<Option<String>>,
    supported: Seq<Seq<char>>,
    version: Seq<char>,
    n: nat,
)
    ensures
        spec_compatible(tags, requires_python, supported, version, n).len() <= n,
    decreases n,
{
    if n > 0 {
        lemma_compatible_len(tags, requires_python, supported, version, (n - 1) as nat);
    }
}

/// A wheel of a project that requirement `r` picks from the grouped,
/// ranked wheels, first among those it admits, is the best it can pick.
#[verifier::rlimit(40)]
proof fn lemma_picks_best(
    files: WheelFiles,
    supported: Seq<Seq<char>>,
    version: Seq<char>,
    c: Seq<(usize, usize)>,
    group_names: Seq<String>,
    members: Seq<Vec<usize>>,
    projects: Seq<ProjectWheels>,
    versions: Seq<Vec<String>>,
    origins: Seq<Vec<usize>>,
    reqs: Seq<Requirement>,
    texts: Seq<String>,
    d: Decisions,
    r: int,
    p: int,
    w: int,
)
    requires
        files_wf(files),
        files.tags@.len() <= usize::MAX,
        supported.len() <= usize::MAX,
        c == spec_compatible(files.tags@, files.requires_python@, supported, version, files.tags@.len()),
        members.len() == group_names.len(),
        forall|g: int|
            0 <= g < group_names.len() ==> group_of(
                c.map_values(|e: (usize, usize)| files.names@[e.0 as int]@),
                c.map_values(|e: (usize, usize)| e.1),
                c.len(),
                #[trigger] group_names[g]@,
                members[g]@,
            ),
        projects.len() == group_names.len(),
        versions.len() == group_names.len(),
        origins.len() == group_names.len(),
        0 <= p < projects.len(),
        projects[p].name@ == group_names[p]@,
        versions[p]@.len() == members[p]@.len(),
        origins[p]@.len() == members[p]@.len(),
        forall|x: int|
            0 <= x < members[p]@.len() ==> (#[trigger] origins[p]@[x]) == c[members[p]@[x] as int].0
                && versions[p]@[x]@ == files.versions@[origins[p]@[x] as int]@,
        forall|x: int|
            0 <= x < members[p]@.len() ==> (#[trigger] d.contains@[r]@[p]@[x]) == spec_admits(
                texts[r]@,
                versions[p]@[x]@,
            ),
        0 <= w < members[p]@.len(),
        projects[p].name@ == reqs[r].name@,
        reqs[r].version != VersionConstraint::Url,
        reqs[r].version == VersionConstraint::Specifiers ==> d.contains@[r]@[p]@[w],
        w > 0 ==> reqs[r].version == VersionConstraint::Specifiers,
        forall|x: int| 0 <= x < w ==> !#[trigger] d.contains@[r]@[p]@[x],
    ensures
        picks_best(files, supported, version, reqs, texts, r, origins[p]@[w] as int),
{
    let cnames = c.map_values(|e: (usize, usize)| files.names@[e.0 as int]@);
    let cranks = c.map_values(|e: (usize, usize)| e.1);
    law_compatible_wheels_installable(files.tags@, files.requires_python@, supported, version, files.tags@.len());
    let m = members[p]@;
    assert(group_of(cnames, cranks, c.len(), group_names[p]@, m));
    let k = m[w] as int;
    assert(m.contains(m[w]));
    let j = origins[p]@[w] as int;
    assert(j == c[k].0);
    assert(cnames[k] == files.names@[j]@);
    assert(cnames[k] == group_names[p]@);
    assert forall|j2: int|
        0 <= j2 < files.file_names@.len() && installable(files, supported, version, j2) && files.names@[j2]@
            == files.names@[j]@ && #[trigger] ranks_before(files, supported, j2, j) implies reqs[r].version
        == VersionConstraint::Specifiers && !spec_admits(texts[r]@, files.versions@[j2]@) by {
        lemma_compatible_complete(
            files.tags@,
            files.requires_python@,
            supported,
            version,
            files.tags@.len(),
            j2,
        );
        let k2 = choose|i: int| 0 <= i < c.len() && (#[trigger] c[i]).0 == j2;
        lemma_compatible_len(files.tags@, files.requires_python@, supported, version, files.tags@.len());
        assert(cnames[k2] == files.names@[j2]@);
        assert(cnames[k2] == group_names[p]@);
        assert((k2 as usize) as int == k2);
        assert(m.contains(k2 as usize));
        let w2 = choose|x: int| 0 <= x < m.len() && m[x] == k2 as usize;
        lemma_wheel_rank_below(views(files.tags@[j]@), supported, 0);
        lemma_wheel_rank_below(views(files.tags@[j2]@), supported, 0);
        assert(cranks[k] == c[k].1);
        assert(cranks[k2] == c[k2].1);
        assert(c[k].1 as nat == file_rank(files, supported, j));
        assert(c[k2].1 as nat == file_rank(files, supported, j2));
        assert(k2 != k);
        if w2 > w {
            assert(rank_sorted(cranks, m));
            assert(rank_before(cranks, m[w], m[w2]));
            assert(m[w] as int == k && m[w2] as int == k2);
            assert(cranks[k] < cranks[k2] || (cranks[k] == cranks[k2] && k < k2));
            if k < k2 {
                assert(c[k].0 < c[k2].0);
                assert(j < j2);
            } else {
                assert(c[k2].0 < c[k].0);
            }
            assert(false);
        }
        assert(w2 != w);
        assert(0 <= w2 < w);
        assert(!d.contains@[r]@[p]@[w2]);
        assert(origins[p]@[w2] == c[k2].0);
    }
}

/// Every wheel a resolve of the grouped, ranked wheels keys by file name is
/// the best the requirement that resolved it can pick.
#[verifier::rlimit(40)]
proof fn lemma_entries_pick_best(
    files: WheelFiles,
    supported: Seq<Seq<char>>,
    version: Seq<char>,
    c: Seq<(usize, usize)>,
    group_names: Seq<String>,
    members: Seq<Vec<usize>>,
    projects: Seq<ProjectWheels>,
    versions: Seq<Vec<String>>,
    origins: Seq<Vec<usize>>,
    reqs: Seq<Requirement>,
    texts: Seq<String>,
    d: Decisions,
    resolved: Seq<(usize, usize, usize)>,
    e: Seq<(Seq<char>, usize, usize)>,
)
    requires
        files_wf(files),
        files.tags@.len() <= usize::MAX,
        supported.len() <= usize::MAX,
        c == spec_compatible(files.tags@, files.requires_python@, supported, version, files.tags@.len()),
        members.len() == group_names.len(),
        forall|g: int|
            0 <= g < group_names.len() ==> group_of(
                c.map_values(|x: (usize, usize)| files.names@[x.0 as int]@),
                c.map_values(|x: (usize, usize)| x.1),
                c.len(),
                #[trigger] group_names[g]@,
                members[g]@,
            ),
        projects.len() == group_names.len(),
        versions.len() == group_names.len(),
        origins.len() == group_names.len(),
        forall|g: int|
            0 <= g < projects.len() ==> (#[trigger] projects[g]).wheels@.len() == members[g]@.len() && versions[g]@.len()
                == members[g]@.len() && origins[g]@.len() == members[g]@.len() && projects[g].name@
                == group_names[g]@,
        forall|g: int, x: int|
            0 <= g < projects.len() && 0 <= x < members[g]@.len() ==> (#[trigger] origins[g]@[x]) == c[members[g]@[x] as int].0
                && versions[g]@[x]@ == files.versions@[origins[g]@[x] as int]@,
        forall|r: int, g: int, x: int|
            0 <= r < reqs.len() && 0 <= g < projects.len() && 0 <= x < versions[g]@.len() ==> #[trigger] d.contains@[r]@[g]@[x]
                == spec_admits(texts[r]@, versions[g]@[x]@),
        picks_admitted(projects, reqs, d, resolved),
        forall|k: int| 0 <= k < resolved.len() ==> (#[trigger] resolved[k]).0 < reqs.len(),
        forall|i: int|
            0 <= i < e.len() ==> exists|k: int|
                0 <= k < resolved.len() && (#[trigger] resolved[k]).1 == (#[trigger] e[i]).1 && resolved[k].2 == e[i].2,
    ensures
        forall|i: int|
            0 <= i < e.len() ==> picked_best(
                files,
                supported,
                version,
                reqs,
                texts,
                origins[(#[trigger] e[i]).1 as int]@[e[i].2 as int] as int,
            ),
{
    assert forall|i: int| 0 <= i < e.len() implies picked_best(
        files,
        supported,
        version,
        reqs,
        texts,
        origins[(#[trigger] e[i]).1 as int]@[e[i].2 as int] as int,
    ) by {
        let k = choose|k: int| 0 <= k < resolved.len() && (#[trigger] resolved[k]).1 == e[i].1 && resolved[k].2 == e[i].2;
        let (r, p, w) = resolved[k];
        assert(p < projects.len());
        lemma_picks_best(
            files,
            supported,
            version,
            c,
            group_names,
            members,
            projects,
            versions,
            origins,
            reqs,
            texts,
            d,
            r as int,
            p as int,
            w as int,
        );
    }
}

/// Whether `projects` are the wheel files the target (supported tags
/// `supported`, Python version `version`) can install, grouped by project
/// as [`rank_wheels`] groups them: `members[g]` the places of project `g`'s
/// wheels in the compatible list, in rank order, and `origins[g]` their
/// positions among the files.
pub open spec fn grouped(
    files: WheelFiles,
    supported: Seq<Seq<char>>,
    version: Seq<char>,
    projects: Seq<ProjectWheels>,
    members: Seq<Vec<usize>>,
    origins: Seq<Vec<usize>>,
) -> bool {
    let c = spec_compatible(files.tags@, files.requires_python@, supported, version, files.tags@.len());
    let cnames = c.map_values(|x: (usize, usize)| files.names@[x.0 as int]@);
    let cranks = c.map_values(|x: (usize, usize)| x.1);
    &&& projects.map_values(|q: ProjectWheels| q.name@) == distinct_names(cnames, c.len())
    &&& members.len() == projects.len()
    &&& origins.len() == projects.len()
    &&& forall|g: int|
        0 <= g < projects.len() ==> {
            &&& group_of(cnames, cranks, c.len(), (#[trigger] projects[g]).name@, members[g]@)
            &&& projects[g].wheels@.len() == members[g]@.len()
            &&& origins[g]@.len() == members[g]@.len()
        }
    &&& forall|g: int, w: int|
        0 <= g < projects.len() && 0 <= w < members[g]@.len() ==> {
            let j = #[trigger] origins[g]@[w];
            &&& j == c[members[g]@[w] as int].0
            &&& projects[g].wheels@[w].file_name@ == files.file_names@[j as int]@
            &&& projects[g].wheels@[w].normalized_name == Some(files.names@[j as int])
            &&& projects[g].wheels@[w].requires_dists@ == files.requires_dists@[j as int]@
        }
}

/// Whether `d` holds the decisions for the grouped wheels `projects`: the
/// marker of each requirement (by its text) evaluated with the marker
/// values `fields` and the extras of each source, whether each requirement
/// admits the version of each wheel, and the given exclusions and
/// overrides.
pub open spec fn decided(
    d: Decisions,
    files: WheelFiles,
    fields: MarkerFields,
    reqs: Seq<Requirement>,
    texts: Seq<String>,
    excluded: Seq<bool>,
    overridden: Seq<Vec<Option<usize>>>,
    projects: Seq<ProjectWheels>,
    origins: Seq<Vec<usize>>,
) -> bool {
    let n = reqs.len();
    &&& d.applies@.len() == n
    &&& forall|r: int| 0 <= r < n ==> (#[trigger] d.applies@[r])@.len() == n + 1
    &&& forall|r: int, e: int|
        0 <= r < n && 0 <= e <= n ==> #[trigger] d.applies@[r]@[e] == pep508_marker_holds(
            texts[r]@,
            marker_texts(fields),
            source_extras(reqs, e),
        )
    &&& d.contains@.len() == n
    &&& forall|r: int| 0 <= r < n ==> (#[trigger] d.contains@[r])@.len() == projects.len()
    &&& forall|r: int, p: int|
        0 <= r < n && 0 <= p < projects.len() ==> (#[trigger] d.contains@[r]@[p])@.len() == projects[p].wheels@.len()
    &&& forall|r: int, p: int, w: int|
        0 <= r < n && 0 <= p < projects.len() && 0 <= w < projects[p].wheels@.len() ==> #[trigger] d.contains@[r]@[p]@[w]
            == spec_admits(texts[r]@, files.versions@[origins[p]@[w] as int]@)
    &&& d.excluded@ == excluded
    &&& d.overridden@ == overridden
}

/// The resolved wheels keyed by their file names, each with its position
/// among the files.
pub open spec fn keyed_origins(
    projects: Seq<ProjectWheels>,
    origins: Seq<Vec<usize>>,
    resolved: Seq<(usize, usize, usize)>,
) -> Seq<(Seq<char>, usize)> {
    spec_by_file_name(projects, resolved, resolved.len()).map_values(
        |x: (Seq<char>, usize, usize)| (x.0, origins[x.1 as int]@[x.2 as int]),
    )
}

/// Whether `res` is what the outcome `o` of a resolve gives: the resolved
/// wheels keyed by file name, or the resolve's failure.
pub open spec fn ran_as(
    o: Option<Result<Seq<(usize, usize, usize)>, Failure>>,
    projects: Seq<ProjectWheels>,
    origins: Seq<Vec<usize>>,
    res: Result<Vec<(String, usize)>, ResolveWheelsError>,
) -> bool {
    match o {
        Some(Ok(resolved)) => match res {
            Ok(v) => v@.map_values(|y: (String, usize)| (y.0@, y.1)) == keyed_origins(projects, origins, resolved),
            Err(_) => false,
        },
        Some(Err(f)) => match res {
            Err(ResolveWheelsError::Resolve(e)) => e@ == f,
            _ => false,
        },
        None => false,
    }
}

/// Whether `res` is the outcome of resolving the grouped installable wheels
/// with the decided tables ([`run`] from the initial state), keyed by file
/// name.
pub open spec fn resolves_as(
    files: WheelFiles,
    supported: Seq<Seq<char>>,
    fields: MarkerFields,
    reqs: Seq<Requirement>,
    texts: Seq<String>,
    roots: Seq<usize>,
    excluded: Seq<bool>,
    overridden: Seq<Vec<Option<usize>>>,
    ignore_errors: bool,
    res: Result<Vec<(String, usize)>, ResolveWheelsError>,
) -> bool {
    exists|projects: Seq<ProjectWheels>, members: Seq<Vec<usize>>, origins: Seq<Vec<usize>>, d: Decisions, fuel: nat|
        #![trigger grouped(files, supported, fields.python_full_version@, projects, members, origins), decided(d, files, fields, reqs, texts, excluded, overridden, projects, origins), run(projects, reqs, d, ignore_errors, initial_state(d, roots), fuel)]
        grouped(files, supported, fields.python_full_version@, projects, members, origins) && decided(
            d,
            files,
            fields,
            reqs,
            texts,
            excluded,
            overridden,
            projects,
            origins,
        ) && ran_as(run(projects, reqs, d, ignore_errors, initial_state(d, roots), fuel), projects, origins, res)
}

/// Whether the crates refuse the `Requires-Python` of a wheel with a
/// supported tag, or the version against it.
pub open spec fn wheels_refused(files: WheelFiles, supported: Seq<Seq<char>>, version: Seq<char>) -> bool {
    exists|i: int|
        0 <= i < files.tags@.len() && spec_wheel_rank(views(files.tags@[i]@), supported, 0) is Some
            && #[trigger] python_refused(opt_view(files.requires_python@[i]), version)
}

/// Whether the crates refuse a version marker, a requirement or an extra.
pub open spec fn markers_refused(fields: MarkerFields, reqs: Seq<Requirement>, texts: Seq<String>) -> bool {
    ||| !versions_accepted(fields)
    ||| exists|r: int, e: int|
        0 <= r < reqs.len() && 0 <= e <= reqs.len() && #[trigger] marker_refused(texts[r]@, source_extras(reqs, e))
}

/// Whether the crates refuse a requirement or the version of an
/// installable wheel.
pub open spec fn versions_refused(
    files: WheelFiles,
    supported: Seq<Seq<char>>,
    version: Seq<char>,
    texts: Seq<String>,
) -> bool {
    exists|r: int, j: int|
        0 <= r < texts.len() && 0 <= j < files.versions@.len() && installable(files, supported, version, j)
            && #[trigger] version_refused(texts[r]@, files.versions@[j]@)
}

/// Whether the exclusions, overrides, roots and the requirements of the
/// installable wheels fit the requirement table of `n` requirements.
pub open spec fn inputs_fit_files(
    files: WheelFiles,
    supported: Seq<Seq<char>>,
    version: Seq<char>,
    n: nat,
    roots: Seq<usize>,
    excluded: Seq<bool>,
    overridden: Seq<Vec<Option<usize>>>,
) -> bool {
    &&& excluded.len() == n
    &&& overridden.len() == n
    &&& forall|r: int| 0 <= r < n ==> (#[trigger] overridden[r])@.len() == n + 1
    &&& forall|r: int, e: int|
        0 <= r < n && 0 <= e <= n ==> match #[trigger] overridden[r]@[e] {
            Some(o) => o < n,
            None => true,
        }
    &&& below(roots, n)
    &&& forall|j: int, k: int|
        0 <= j < files.requires_dists@.len() && installable(files, supported, version, j) && 0 <= k
            < files.requires_dists@[j]@.len() ==> #[trigger] files.requires_dists@[j]@[k] < n
}

/// The names among the first `n` are among the distinct names.
proof fn lemma_distinct_names_contains(names: Seq<Seq<char>>, n: nat, i: int)
    requires
        0 <= i < n <= names.len(),
    ensures
        distinct_names(names, n).contains(names[i]),
    decreases n,
{
    let before = distinct_names(names, (n - 1) as nat);
    if i < n - 1 {
        lemma_distinct_names_contains(names, (n - 1) as nat, i);
        if !before.contains(names[n - 1]) {
            let k = choose|k: int| 0 <= k < before.len() && before[k] == names[i];
            assert(before.push(names[n - 1])[k] == names[i]);
        }
    } else {
        if !before.contains(names[n - 1]) {
            assert(before.push(names[n - 1])[before.len() as int] == names[i]);
        }
    }
}

/// The grouped wheels are exactly the installable ones: each is installable,
/// and each installable wheel is in some group.
proof fn lemma_grouped_cover(
    files: WheelFiles,
    supported: Seq<Seq<char>>,
    version: Seq<char>,
    projects: Seq<ProjectWheels>,
    members: Seq<Vec<usize>>,
    origins: Seq<Vec<usize>>,
)
    requires
        files_wf(files),
        files.tags@.len() <= usize::MAX,
        supported.len() <= usize::MAX,
        grouped(files, supported, version, projects, members, origins),
    ensures
        forall|g: int, w: int|
            0 <= g < projects.len() && 0 <= w < members[g]@.len() ==> (#[trigger] origins[g]@[w]) < files.file_names@.len()
                && installable(files, supported, version, origins[g]@[w] as int),
        forall|j: int|
            0 <= j < files.file_names@.len() && #[trigger] installable(files, supported, version, j) ==> exists|
                g: int,
                w: int,
            | 0 <= g < projects.len() && 0 <= w < members[g]@.len() && #[trigger] origins[g]@[w] == j,
{
    let c = spec_compatible(files.tags@, files.requires_python@, supported, version, files.tags@.len());
    let cnames = c.map_values(|x: (usize, usize)| files.names@[x.0 as int]@);
    let cranks = c.map_values(|x: (usize, usize)| x.1);
    law_compatible_wheels_installable(files.tags@, files.requires_python@, supported, version, files.tags@.len());
    lemma_compatible_len(files.tags@, files.requires_python@, supported, version, files.tags@.len());
    assert forall|g: int, w: int|
        0 <= g < projects.len() && 0 <= w < members[g]@.len() implies (#[trigger] origins[g]@[w]) < files.file_names@.len()
            && installable(files, supported, version, origins[g]@[w] as int) by {
        assert(group_of(cnames, cranks, c.len(), projects[g].name@, members[g]@));
        assert(members[g]@.contains(members[g]@[w]));
        let k = members[g]@[w] as int;
        assert(0 <= k < c.len());
        assert(origins[g]@[w] == c[k].0);
    }
    assert forall|j: int|
        0 <= j < files.file_names@.len() && #[trigger] installable(files, supported, version, j) implies exists|
            g: int,
            w: int,
        | 0 <= g < projects.len() && 0 <= w < members[g]@.len() && #[trigger] origins[g]@[w] == j by {
        lemma_compatible_complete(files.tags@, files.requires_python@, supported, version, files.tags@.len(), j);
        let k2 = choose|i: int| 0 <= i < c.len() && (#[trigger] c[i]).0 == j;
        lemma_distinct_names_contains(cnames, c.len(), k2);
        let names = projects.map_values(|q: ProjectWheels| q.name@);
        assert(names.contains(cnames[k2]));
        let g = choose|g: int| 0 <= g < names.len() && names[g] == cnames[k2];
        assert(projects[g].name@ == cnames[k2]);
        assert(group_of(cnames, cranks, c.len(), projects[g].name@, members[g]@));
        assert((k2 as usize) as int == k2);
        assert(members[g]@.contains(k2 as usize));
        let w = choose|x: int| 0 <= x < members[g]@.len() && members[g]@[x] == k2 as usize;
        assert(origins[g]@[w] == c[k2].0);
    }
}

proof fn lemma_project_from_none(projects: Seq<ProjectWheels>, name: Seq<char>, i: nat)
    ensures
        project_from(projects, name, i) is None ==> forall|p: int| i <= p < projects.len() ==> (#[trigger] projects[p]).name@ != name,
    decreases projects.len() - i,
{
    if i < projects.len() {
        lemma_project_from_none(projects, name, i + 1);
    }
}

proof fn lemma_distinct_names_from(names: Seq<Seq<char>>, n: nat, i: int)
    requires
        n <= names.len(),
        0 <= i < distinct_names(names, n).len(),
    ensures
        exists|k: int| 0 <= k < n && names[k] == #[trigger] distinct_names(names, n)[i],
    decreases n,
{
    let before = distinct_names(names, (n - 1) as nat);
    if i < before.len() {
        lemma_distinct_names_from(names, (n - 1) as nat, i);
        let k = choose|k: int| 0 <= k < n - 1 && names[k] == #[trigger] before[i];
        if !before.contains(names[n - 1]) {
            assert(before.push(names[n - 1])[i] == before[i]);
        }
        assert(names[k] == distinct_names(names, n)[i]);
    } else {
        assert(distinct_names(names, n)[i] == names[n - 1]);
    }
}

/// In the grouped installable wheels, a project of a name is found exactly
/// when some installable wheel has that name, and its wheels are installable
/// wheels of that name: so a requirement finds no project exactly when no
/// wheel of its project can be installed on the target
/// ([`law_step_failures`] says what the resolve then does).
pub proof fn law_project_found_iff_installable(
    files: WheelFiles,
    supported: Seq<Seq<char>>,
    version: Seq<char>,
    projects: Seq<ProjectWheels>,
    members: Seq<Vec<usize>>,
    origins: Seq<Vec<usize>>,
    name: Seq<char>,
)
    requires
        files_wf(files),
        files.tags@.len() <= usize::MAX,
        supported.len() <= usize::MAX,
        grouped(files, supported, version, projects, members, origins),
    ensures
        (project_from(projects, name, 0) is Some) <==> exists|j: int|
            0 <= j < files.file_names@.len() && #[trigger] installable(files, supported, version, j) && files.names@[j]@
                == name,
        project_from(projects, name, 0) matches Some(p) ==> forall|w: int|
            0 <= w < projects[p as int].wheels@.len() ==> installable(
                files,
                supported,
                version,
                #[trigger] origins[p as int]@[w] as int,
            ) && files.names@[origins[p as int]@[w] as int]@ == name,
{
    let c = spec_compatible(files.tags@, files.requires_python@, supported, version, files.tags@.len());
    let cnames = c.map_values(|x: (usize, usize)| files.names@[x.0 as int]@);
    let cranks = c.map_values(|x: (usize, usize)| x.1);
    lemma_grouped_cover(files, supported, version, projects, members, origins);
    lemma_project_from(projects, name, 0);
    lemma_project_from_none(projects, name, 0);
    law_compatible_wheels_installable(files.tags@, files.requires_python@, supported, version, files.tags@.len());
    lemma_compatible_len(files.tags@, files.requires_python@, supported, version, files.tags@.len());
    let names = projects.map_values(|q: ProjectWheels| q.name@);
    match project_from(projects, name, 0) {
        Some(p) => {
            let p = p as int;
            assert(names[p] == name);
            lemma_distinct_names_from(cnames, c.len(), p);
            let k = choose|k: int| 0 <= k < c.len() && cnames[k] == #[trigger] distinct_names(cnames, c.len())[p];
            let j = c[k].0 as int;
            assert(installable(files, supported, version, j) && files.names@[j]@ == name);
            assert forall|w: int| 0 <= w < projects[p].wheels@.len() implies installable(
                files,
                supported,
                version,
                #[trigger] origins[p]@[w] as int,
            ) && files.names@[origins[p]@[w] as int]@ == name by {
                assert(group_of(cnames, cranks, c.len(), projects[p].name@, members[p]@));
                assert(members[p]@.contains(members[p]@[w]));
                let kk = members[p]@[w] as int;
                assert(cnames[kk] == name);
            }
        },
        None => {
            if exists|j: int|
                0 <= j < files.file_names@.len() && #[trigger] installable(files, supported, version, j)
                    && files.names@[j]@ == name {
                let j = choose|j: int|
                    0 <= j < files.file_names@.len() && #[trigger] installable(files, supported, version, j)
                        && files.names@[j]@ == name;
                let (g, w) = choose|g: int, w: int|
                    0 <= g < projects.len() && 0 <= w < members[g]@.len() && #[trigger] origins[g]@[w] == j;
                assert(group_of(cnames, cranks, c.len(), projects[g].name@, members[g]@));
                assert(members[g]@.contains(members[g]@[w]));
                let kk = members[g]@[w] as int;
                assert(cnames[kk] == projects[g].name@);
                assert(projects[g].name@ != name);
                assert(false);
            }
        },
    }
}

/// With decided tables, the resolver's inputs fit exactly when the
/// exclusions, overrides, roots and the installable wheels' requirements
/// fit the requirement table.
proof fn lemma_fit_equiv(
    files: WheelFiles,
    supported: Seq<Seq<char>>,
    version: Seq<char>,
    projects: Seq<ProjectWheels>,
    members: Seq<Vec<usize>>,
    origins: Seq<Vec<usize>>,
    reqs: Seq<Requirement>,
    d: Decisions,
    roots: Seq<usize>,
)
    requires
        files_wf(files),
        files.tags@.len() <= usize::MAX,
        supported.len() <= usize::MAX,
        grouped(files, supported, version, projects, members, origins),
        d.applies@.len() == reqs.len(),
        forall|r: int| 0 <= r < reqs.len() ==> (#[trigger] d.applies@[r])@.len() == reqs.len() + 1,
        d.contains@.len() == reqs.len(),
        forall|r: int| 0 <= r < reqs.len() ==> (#[trigger] d.contains@[r])@.len() == projects.len(),
        forall|r: int, p: int|
            0 <= r < reqs.len() && 0 <= p < projects.len() ==> (#[trigger] d.contains@[r]@[p])@.len()
                == projects[p].wheels@.len(),
    ensures
        (inputs_wf(projects, reqs, d) && below(roots, reqs.len())) == inputs_fit_files(
            files,
            supported,
            version,
            reqs.len(),
            roots,
            d.excluded@,
            d.overridden@,
        ),
{
    let n = reqs.len();
    lemma_grouped_cover(files, supported, version, projects, members, origins);
    let a = forall|p: int, w: int, k: int|
        0 <= p < projects.len() && 0 <= w < projects[p].wheels@.len() && 0 <= k
            < projects[p].wheels@[w].requires_dists@.len() ==> #[trigger] projects[p].wheels@[w].requires_dists@[k] < n;
    let b = forall|j: int, k: int|
        0 <= j < files.requires_dists@.len() && installable(files, supported, version, j) && 0 <= k
            < files.requires_dists@[j]@.len() ==> #[trigger] files.requires_dists@[j]@[k] < n;
    if a {
        assert forall|j: int, k: int|
            0 <= j < files.requires_dists@.len() && installable(files, supported, version, j) && 0 <= k
                < files.requires_dists@[j]@.len() implies #[trigger] files.requires_dists@[j]@[k] < n by {
            assert(installable(files, supported, version, j));
            let (g, w) = choose|g: int, w: int|
                0 <= g < projects.len() && 0 <= w < members[g]@.len() && #[trigger] origins[g]@[w] == j;
            assert(projects[g].wheels@[w].requires_dists@ == files.requires_dists@[j]@);
            assert(projects[g].wheels@[w].requires_dists@[k] < n);
        }
    }
    if b {
        assert forall|p: int, w: int, k: int|
            0 <= p < projects.len() && 0 <= w < projects[p].wheels@.len() && 0 <= k
                < projects[p].wheels@[w].requires_dists@.len() implies #[trigger] projects[p].wheels@[w].requires_dists@[k]
            < n by {
            let j = origins[p]@[w] as int;
            assert(installable(files, supported, version, j));
            assert(projects[p].wheels@[w].requires_dists@ == files.requires_dists@[j]@);
            assert(files.requires_dists@[j]@[k] < n);
        }
    }
}

/// Resolves the requirements `roots` (positions in the requirement table
/// `reqs`, whose texts are `texts`) against the wheel files `files` for the
/// target `target`: the wheels the target can install ([`rank_wheels`]:
/// a supported tag, and a `Requires-Python` that admits the target's Python
/// version), grouped by project in rank order, are resolved ([`resolve`])
/// with the markers evaluated for the target ([`decide_applies`]), the
/// versions checked against the requirements ([`decide_contains`]) and the
/// given exclusions and overrides; the result is keyed by each resolved
/// wheel's own file name ([`by_file_name`]), with the wheel's position among
/// the files. Each wheel in it is installable and is the best-ranked wheel
/// of its project whose version the requirement that resolved it admits
/// ([`picked_best`]).
#[verifier::rlimit(40)]
pub fn resolve_wheels(
    files: &WheelFiles,
    reqs: &Vec<Requirement>,
    texts: &Vec<String>,
    roots: &Vec<usize>,
    excluded: Vec<bool>,
    overridden: Vec<Vec<Option<usize>>>,
    target: &crate::platform_details::PlatformDetails,
    ignore_errors: bool,
) -> (res: Result<Vec<(String, usize)>, ResolveWheelsError>)
    requires
        files_wf(*files),
    ensures
        (res == Err::<Vec<(String, usize)>, ResolveWheelsError>(ResolveWheelsError::InvalidRequiresPython))
            <==> wheels_refused(*files, target.tags(), target.markers().python_full_version@),
        !wheels_refused(*files, target.tags(), target.markers().python_full_version@) && (texts@.len()
            != reqs@.len() || reqs@.len() == usize::MAX) ==> res == Err::<Vec<(String, usize)>, ResolveWheelsError>(
            ResolveWheelsError::Misfit,
        ),
        !wheels_refused(*files, target.tags(), target.markers().python_full_version@) && texts@.len() == reqs@.len()
            && reqs@.len() < usize::MAX ==> if markers_refused(target.markers(), reqs@, texts@) {
            res == Err::<Vec<(String, usize)>, ResolveWheelsError>(ResolveWheelsError::InvalidMarker)
        } else if versions_refused(*files, target.tags(), target.markers().python_full_version@, texts@) {
            res == Err::<Vec<(String, usize)>, ResolveWheelsError>(ResolveWheelsError::InvalidVersion)
        } else if !inputs_fit_files(
            *files,
            target.tags(),
            target.markers().python_full_version@,
            reqs@.len(),
            roots@,
            excluded@,
            overridden@,
        ) {
            res == Err::<Vec<(String, usize)>, ResolveWheelsError>(ResolveWheelsError::Misfit)
        } else {
            resolves_as(
                *files,
                target.tags(),
                target.markers(),
                reqs@,
                texts@,
                roots@,
                excluded@,
                overridden@,
                ignore_errors,
                res,
            )
        },
        res matches Ok(v) ==> {
            &&& forall|i: int|
                0 <= i < v@.len() ==> {
                    let j = (#[trigger] v@[i]).1;
                    &&& j < files.file_names@.len()
                    &&& v@[i].0@ == files.file_names@[j as int]@
                    &&& installable(*files, target.tags(), target.markers().python_full_version@, j as int)
                }
            &&& forall|i: int, k: int| 0 <= i < k < v@.len() ==> (#[trigger] v@[i]).0@ != (#[trigger] v@[k]).0@
            &&& forall|i: int|
                0 <= i < v@.len() ==> picked_best(
                    *files,
                    target.tags(),
                    target.markers().python_full_version@,
                    reqs@,
                    texts@,
                    (#[trigger] v@[i]).1 as int,
                )
        },
{
    let supported = target.supported_tags();
    let fields = target.marker_fields();
    let ghost sup = views(supported@);
    let ghost ver = fields.python_full_version@;
    let ranked = rank_wheels(&files.names, &files.tags, &files.requires_python, supported, fields.python_full_version.as_str());
    let (compatible, group_names, members) = match ranked {
        Some(r) => r,
        None => {
            return Err(ResolveWheelsError::InvalidRequiresPython);
        },
    };
    let ntags = files.tags.len();
    let nsupported = supported.len();
    proof {
        assert(sup.len() == nsupported);
        law_compatible_wheels_installable(files.tags@, files.requires_python@, sup, ver, ntags as nat);
        assert forall|g: int, w: int|
            0 <= g < members@.len() && 0 <= w < members@[g]@.len() implies #[trigger] members@[g]@[w]
                < compatible@.len() by {
            let c = compatible@;
            let cnames = c.map_values(|e: (usize, usize)| files.names@[e.0 as int]@);
            let cranks = c.map_values(|e: (usize, usize)| e.1);
            assert(group_of(cnames, cranks, c.len(), group_names@[g]@, members@[g]@));
            assert(members@[g]@.contains(members@[g]@[w]));
        }
    }
    let (projects, versions, origins) = build_projects(files, &compatible, &group_names, &members);
    proof {
        assert(projects@.map_values(|q: ProjectWheels| q.name@) =~= views(group_names@));
        assert(grouped(*files, sup, ver, projects@, members@, origins@));
        lemma_grouped_cover(*files, sup, ver, projects@, members@, origins@);
    }
    if texts.len() != reqs.len() || reqs.len() == usize::MAX {
        return Err(ResolveWheelsError::Misfit);
    }
    let applies = match decide_applies(texts, fields, reqs) {
        Some(a) => a,
        None => {
            return Err(ResolveWheelsError::InvalidMarker);
        },
    };
    let contains = match decide_contains(texts, &versions) {
        Some(c) => c,
        None => {
            proof {
                let (r, g, w) = choose|r: int, g: int, w: int|
                    0 <= r < texts@.len() && 0 <= g < versions@.len() && 0 <= w < versions@[g]@.len()
                        && #[trigger] version_refused(texts@[r]@, versions@[g]@[w]@);
                let j = origins@[g]@[w] as int;
                assert(installable(*files, sup, ver, j));
                assert(version_refused(texts@[r]@, files.versions@[j]@));
            }
            return Err(ResolveWheelsError::InvalidVersion);
        },
    };
    proof {
        if versions_refused(*files, sup, ver, texts@) {
            let (r, j) = choose|r: int, j: int|
                0 <= r < texts@.len() && 0 <= j < files.versions@.len() && installable(*files, sup, ver, j)
                    && #[trigger] version_refused(texts@[r]@, files.versions@[j]@);
            assert(installable(*files, sup, ver, j));
            let (g, w) = choose|g: int, w: int|
                0 <= g < projects@.len() && 0 <= w < members@[g]@.len() && #[trigger] origins@[g]@[w] == j;
            assert(version_refused(texts@[r]@, versions@[g]@[w]@));
            assert(false);
        }
    }
    let ghost excluded_v = excluded@;
    let ghost overridden_v = overridden@;
    let d = Decisions { applies, contains, excluded, overridden };
    proof {
        lemma_fit_equiv(*files, sup, ver, projects@, members@, origins@, reqs@, d, roots@);
        assert(decided(d, *files, *fields, reqs@, texts@, excluded_v, overridden_v, projects@, origins@));
    }
    if !inputs_fit(&projects, reqs, &d, roots) {
        return Err(ResolveWheelsError::Misfit);
    }
    let resolved = match resolve(&projects, reqs, &d, roots, ignore_errors) {
        Ok(r) => r,
        Err(e) => {
            let res = Err(ResolveWheelsError::Resolve(e));
            proof {
                let f = choose|f: nat|
                    #[trigger] run(projects@, reqs@, d, ignore_errors, initial_state(d, roots@), f) == Some(
                        outcome(Err::<Vec<(usize, usize, usize)>, ResolveError>(e)),
                    );
                assert(ran_as(run(projects@, reqs@, d, ignore_errors, initial_state(d, roots@), f), projects@, origins@, res));
                assert(resolves_as(*files, sup, *fields, reqs@, texts@, roots@, excluded_v, overridden_v, ignore_errors, res));
            }
            return res;
        },
    };
    let ghost fuel = choose|f: nat|
        #[trigger] run(projects@, reqs@, d, ignore_errors, initial_state(d, roots@), f) == Some(
            outcome(Ok::<Vec<(usize, usize, usize)>, ResolveError>(resolved)),
        );
    proof {
        law_resolve_picks_admitted(projects@, reqs@, d, ignore_errors, initial_state(d, roots@), fuel);
        assert(resolved_in(projects@, resolved@));
        law_keyed_by_own_file_name(projects@, resolved@);
    }
    let keyed = by_file_name(&projects, &resolved);
    let ghost e = spec_by_file_name(projects@, resolved@, resolved@.len());
    proof {
        lemma_entries_pick_best(
            *files,
            sup,
            ver,
            compatible@,
            group_names@,
            members@,
            projects@,
            versions@,
            origins@,
            reqs@,
            texts@,
            d,
            resolved@,
            e,
        );
    }
    let mut out: Vec<(String, usize)> = Vec::new();
    let mut i: usize = 0;
    while i < keyed.len()
        invariant
            i <= keyed@.len(),
            entries_view(keyed@) == e,
            out@.len() == i,
            files_wf(*files),
            origins@.len() == projects@.len(),
            forall|g: int| 0 <= g < projects@.len() ==> (#[trigger] projects@[g]).wheels@.len() == origins@[g]@.len(),
            forall|x: int|
                0 <= x < e.len() ==> (#[trigger] e[x]).1 < projects@.len() && e[x].2
                    < projects@[e[x].1 as int].wheels@.len() && e[x].0 == projects@[e[x].1 as int].wheels@[e[x].2 as int].file_name@,
            forall|x: int| 0 <= x < i ==> (#[trigger] out@[x]).0@ == e[x].0 && out@[x].1 == origins@[e[x].1 as int]@[e[x].2 as int],
        decreases keyed@.len() - i,
    {
        let (name, p, w) = &keyed[i];
        assert(e[i as int] == (name@, *p, *w));
        out.push((name.clone(), origins[*p][*w]));
        i = i + 1;
    }
    proof {
        assert(out@.map_values(|y: (String, usize)| (y.0@, y.1)) =~= keyed_origins(projects@, origins@, resolved@));
        let res = Ok::<Vec<(String, usize)>, ResolveWheelsError>(out);
        assert(ran_as(run(projects@, reqs@, d, ignore_errors, initial_state(d, roots@), fuel), projects@, origins@, res));
        assert(resolves_as(*files, sup, *fields, reqs@, texts@, roots@, excluded_v, overridden_v, ignore_errors, res));
        assert forall|x: int| 0 <= x < out@.len() implies {
            let j = (#[trigger] out@[x]).1;
            &&& j < files.file_names@.len()
            &&& out@[x].0@ == files.file_names@[j as int]@
            &&& installable(*files, sup, ver, j as int)
        } by {
            let g = e[x].1 as int;
            let w = e[x].2 as int;
            assert(origins@[g]@[w] == out@[x].1);
        }
    }
    Ok(out)
}

/// Whether the `pep508_rs` crate accepts `s` as the name of an extra
/// (`ExtraName::from_str`).
pub uninterp spec fn pep508_extra_accepts(s: Seq<char>) -> bool;


/// Whether the version specifiers of the requirement the text `requirement`
/// states admit the version `version`, as `VersionSpecifiers::contains` of
/// the `pep440_rs` crate answers.
pub uninterp spec fn pep440_admits(requirement: Seq<char>, version: Seq<char>) -> bool;

/// Whether the `pep508_rs` crate refuses the requirement `t` or one of the
/// extras `extras`.
pub open spec fn marker_refused(t: Seq<char>, extras: Seq<Seq<char>>) -> bool {
    pep508_requirement(t) is None || exists|i: int| 0 <= i < extras.len() && !pep508_extra_accepts(#[trigger] extras[i])
}

/// Whether the marker of the requirement the `pep508_rs` crate reads from
/// the text `requirement` holds in the environment with the marker values
/// `fields` (in the order of [`marker_texts`]) and the extras `extras`
/// (`MarkerTree::evaluate`).
pub uninterp spec fn pep508_marker_holds(requirement: Seq<char>, fields: Seq<Seq<char>>, extras: Seq<Seq<char>>) -> bool;


/// `Requirement::<Url>::from_str`, `MarkerEnvironment::try_from` and
/// `MarkerTree::evaluate` of the `pep508_rs` crate: whether the marker of
/// the requirement the text `requirement` states holds in the environment
/// with the marker values `fields` and the extras `extras`; `None` exactly
/// where the crates refuse the requirement, an extra's name or a version
/// marker.
#[verifier::external_body]
fn marker_holds(requirement: &str, fields: &MarkerFields, extras: &Vec<String>) -> (res: Option<bool>)
    ensures
        match res {
            None => pep508_requirement(requirement@) is None || (exists|i: int|
                0 <= i < extras@.len() && !pep508_extra_accepts(#[trigger] views(extras@)[i]))
                || !versions_accepted(*fields),
            Some(b) => !marker_refused(requirement@, views(extras@)) && versions_accepted(*fields) && b
                == pep508_marker_holds(requirement@, marker_texts(*fields), views(extras@)),
        },
{
    let r = <pep508_rs::Requirement<url::Url> as std::str::FromStr>::from_str(requirement).ok()?;
    let extras = extras
        .iter()
        .map(|e| <pep508_rs::ExtraName as std::str::FromStr>::from_str(e).ok())
        .collect::<Option<Vec<_>>>()?;
    let env = crate::markers::marker_environment(fields).ok()?;
    Some(r.marker.evaluate(&env, &extras))
}

/// Whether the crates refuse the requirement `t` or the version `v`.
pub open spec fn version_refused(t: Seq<char>, v: Seq<char>) -> bool {
    pep508_requirement(t) is None || !crate::markers::pep440_accepts(v)
}

/// Whether the requirement `t` admits the version `v`: as its version
/// specifiers answer when it has some, else always.
pub open spec fn spec_admits(t: Seq<char>, v: Seq<char>) -> bool {
    match pep508_requirement(t) {
        Some((_, _, _, kind)) => if kind == 1 {
            pep440_admits(t, v)
        } else {
            true
        },
        None => true,
    }
}

/// `VersionSpecifiers::contains` of the `pep440_rs` crate: whether the
/// version specifiers of the requirement the text `requirement` states admit
/// the version `version`; `Some(None)` when the requirement has no version
/// specifiers, `None` exactly where the crates refuse the requirement or the
/// version.
#[verifier::external_body]
fn specifiers_admit(requirement: &str, version: &str) -> (res: Option<Option<bool>>)
    ensures
        match res {
            None => pep508_requirement(requirement@) is None || !crate::markers::pep440_accepts(version@),
            Some(None) => crate::markers::pep440_accepts(version@) && match pep508_requirement(requirement@) {
                Some(parts) => parts.3 != 1,
                None => false,
            },
            Some(Some(b)) => crate::markers::pep440_accepts(version@) && b == pep440_admits(requirement@, version@)
                && match pep508_requirement(requirement@) {
                Some(parts) => parts.3 == 1,
                None => false,
            },
        },
{
    let r = <pep508_rs::Requirement<url::Url> as std::str::FromStr>::from_str(requirement).ok()?;
    let v = <pep440_rs::Version as std::str::FromStr>::from_str(version).ok()?;
    match r.version_or_url {
        Some(pep508_rs::VersionOrUrl::VersionSpecifier(s)) => Some(Some(s.contains(&v))),
        _ => Some(None),
    }
}

/// The extras of marker source `e`: none for 0, those of requirement
/// `e - 1` otherwise.
pub open spec fn source_extras(reqs: Seq<Requirement>, e: int) -> Seq<Seq<char>> {
    if e == 0 {
        Seq::empty()
    } else {
        views(reqs[e - 1].extras@)
    }
}

/// The marker table of [`Decisions`]: whether the marker of each
/// requirement (given by its text) holds in the environment with the marker
/// values `fields` and the extras of each source (none, then those of each
/// requirement); `None` exactly where the crates refuse a version marker,
/// a requirement or an extra.
pub fn decide_applies(texts: &Vec<String>, fields: &MarkerFields, reqs: &Vec<Requirement>) -> (res: Option<
    Vec<Vec<bool>>,
>)
    requires
        texts@.len() == reqs@.len(),
        reqs@.len() < usize::MAX,
    ensures
        res is None <==> !versions_accepted(*fields) || exists|r: int, e: int|
            0 <= r < reqs@.len() && 0 <= e <= reqs@.len() && #[trigger] marker_refused(
                texts@[r]@,
                source_extras(reqs@, e),
            ),
        res matches Some(a) ==> a@.len() == reqs@.len() && forall|r: int|
            0 <= r < reqs@.len() ==> (#[trigger] a@[r])@.len() == reqs@.len() + 1,
        res matches Some(a) ==> forall|r: int, e: int|
            0 <= r < reqs@.len() && 0 <= e <= reqs@.len() ==> #[trigger] a@[r]@[e] == pep508_marker_holds(
                texts@[r]@,
                marker_texts(*fields),
                source_extras(reqs@, e),
            ),
{
    if crate::markers::marker_environment(fields).is_err() {
        return None;
    }
    let n = reqs.len();
    let none: Vec<String> = Vec::new();
    assert(views(none@) =~= Seq::<Seq<char>>::empty());
    let mut applies: Vec<Vec<bool>> = Vec::new();
    let mut r: usize = 0;
    while r < n
        invariant
            r <= n,
            n == reqs@.len(),
            n < usize::MAX,
            texts@.len() == n,
            views(none@) == Seq::<Seq<char>>::empty(),
            applies@.len() == r,
            forall|q: int| 0 <= q < r ==> (#[trigger] applies@[q])@.len() == n + 1,
            versions_accepted(*fields),
            forall|q: int, e: int|
                0 <= q < r && 0 <= e <= n ==> !#[trigger] marker_refused(texts@[q]@, source_extras(reqs@, e)),
            forall|q: int, e: int|
                0 <= q < r && 0 <= e <= n ==> #[trigger] applies@[q]@[e] == pep508_marker_holds(
                    texts@[q]@,
                    marker_texts(*fields),
                    source_extras(reqs@, e),
                ),
        decreases n - r,
    {
        let mut row: Vec<bool> = Vec::new();
        let mut e: usize = 0;
        while e <= n
            invariant
                e <= n + 1,
                n < usize::MAX,
                n == reqs@.len(),
                r < n,
                texts@.len() == n,
                views(none@) == Seq::<Seq<char>>::empty(),
                row@.len() == e,
                versions_accepted(*fields),
                forall|e2: int| 0 <= e2 < e ==> !#[trigger] marker_refused(texts@[r as int]@, source_extras(reqs@, e2)),
                forall|e2: int|
                    0 <= e2 < e ==> #[trigger] row@[e2] == pep508_marker_holds(
                        texts@[r as int]@,
                        marker_texts(*fields),
                        source_extras(reqs@, e2),
                    ),
            decreases n + 1 - e,
        {
            let extras = if e == 0 {
                &none
            } else {
                &reqs[e - 1].extras
            };
            assert(views(extras@) == source_extras(reqs@, e as int));
            match marker_holds(texts[r].as_str(), fields, extras) {
                Some(b) => row.push(b),
                None => {
                    assert(marker_refused(texts@[r as int]@, source_extras(reqs@, e as int)));
                    return None;
                },
            }
            e = e + 1;
        }
        applies.push(row);
        r = r + 1;
    }
    Some(applies)
}

/// The version table of [`Decisions`]: whether each requirement (given by
/// its text) admits the version of each wheel of each project
/// (`versions[p][w]`), as [`spec_admits`] says; `None` exactly where the
/// crates refuse a requirement or a version.
pub fn decide_contains(texts: &Vec<String>, versions: &Vec<Vec<String>>) -> (res: Option<Vec<Vec<Vec<bool>>>>)
    ensures
        res is None <==> exists|r: int, p: int, w: int|
            0 <= r < texts@.len() && 0 <= p < versions@.len() && 0 <= w < versions@[p]@.len()
                && #[trigger] version_refused(texts@[r]@, versions@[p]@[w]@),
        res matches Some(c) ==> c@.len() == texts@.len() && forall|r: int|
            0 <= r < texts@.len() ==> (#[trigger] c@[r])@.len() == versions@.len() && forall|p: int|
                0 <= p < versions@.len() ==> (#[trigger] c@[r]@[p])@.len() == versions@[p]@.len(),
        res matches Some(c) ==> forall|r: int, p: int, w: int|
            0 <= r < texts@.len() && 0 <= p < versions@.len() && 0 <= w < versions@[p]@.len() ==> #[trigger] c@[r]@[p]@[w]
                == spec_admits(texts@[r]@, versions@[p]@[w]@),
{
    let mut contains: Vec<Vec<Vec<bool>>> = Vec::new();
    let mut r: usize = 0;
    while r < texts.len()
        invariant
            r <= texts@.len(),
            contains@.len() == r,
            forall|q: int|
                0 <= q < r ==> (#[trigger] contains@[q])@.len() == versions@.len() && forall|p: int|
                    0 <= p < versions@.len() ==> (#[trigger] contains@[q]@[p])@.len() == versions@[p]@.len(),
            forall|q: int, p: int, w: int|
                0 <= q < r && 0 <= p < versions@.len() && 0 <= w < versions@[p]@.len() ==> !#[trigger] version_refused(
                    texts@[q]@,
                    versions@[p]@[w]@,
                ),
            forall|q: int, p: int, w: int|
                0 <= q < r && 0 <= p < versions@.len() && 0 <= w < versions@[p]@.len() ==> #[trigger] contains@[q]@[p]@[w]
                    == spec_admits(texts@[q]@, versions@[p]@[w]@),
        decreases texts@.len() - r,
    {
        let mut by_project: Vec<Vec<bool>> = Vec::new();
        let mut p: usize = 0;
        while p < versions.len()
            invariant
                p <= versions@.len(),
                r < texts@.len(),
                by_project@.len() == p,
                forall|p2: int| 0 <= p2 < p ==> (#[trigger] by_project@[p2])@.len() == versions@[p2]@.len(),
                forall|p2: int, w: int|
                    0 <= p2 < p && 0 <= w < versions@[p2]@.len() ==> !#[trigger] version_refused(
                        texts@[r as int]@,
                        versions@[p2]@[w]@,
                    ),
                forall|p2: int, w: int|
                    0 <= p2 < p && 0 <= w < versions@[p2]@.len() ==> #[trigger] by_project@[p2]@[w] == spec_admits(
                        texts@[r as int]@,
                        versions@[p2]@[w]@,
                    ),
            decreases versions@.len() - p,
        {
            let mut row: Vec<bool> = Vec::new();
            let mut w: usize = 0;
            while w < versions[p].len()
                invariant
                    p < versions@.len(),
                    r < texts@.len(),
                    w <= versions@[p as int]@.len(),
                    row@.len() == w,
                    forall|w2: int| 0 <= w2 < w ==> !#[trigger] version_refused(
                        texts@[r as int]@,
                        versions@[p as int]@[w2]@,
                    ),
                    forall|w2: int| 0 <= w2 < w ==> #[trigger] row@[w2] == spec_admits(
                        texts@[r as int]@,
                        versions@[p as int]@[w2]@,
                    ),
                decreases versions@[p as int]@.len() - w,
            {
                match specifiers_admit(texts[r].as_str(), versions[p][w].as_str()) {
                    Some(Some(b)) => row.push(b),
                    Some(None) => row.push(true),
                    None => {
                        assert(version_refused(texts@[r as int]@, versions@[p as int]@[w as int]@));
                        return None;
                    },
                }
                w = w + 1;
            }
            by_project.push(row);
            p = p + 1;
        }
        contains.push(by_project);
        r = r + 1;
    }
    Some(contains)
}

/// The position of the first wheel from position `i` on whose pinned
/// requirement (`==<its version>`) is not excluded.
pub open spec fn first_not_excluded(excluded: Seq<bool>, i: nat) -> Option<nat>
    decreases excluded.len() - i,
{
    if i >= excluded.len() {
        None
    } else if !excluded[i as int] {
        Some(i)
    } else {
        first_not_excluded(excluded, i + 1)
    }
}

/// The requirements resolved when a PEX names none: for each project in
/// order, its first wheel (best-ranked first) whose pinned requirement the
/// dependency configuration does not exclude (`pinned_excluded[p][w]`);
/// projects with none are left out.
pub open spec fn spec_default_roots(pinned_excluded: Seq<Seq<bool>>, n: nat) -> Seq<(usize, usize)>
    decreases n,
{
    if n == 0 {
        Seq::empty()
    } else {
        let before = spec_default_roots(pinned_excluded, (n - 1) as nat);
        match first_not_excluded(pinned_excluded[n - 1], 0) {
            Some(w) => before.push(((n - 1) as usize, w as usize)),
            None => before,
        }
    }
}

/// The (project, wheel) pins resolved when a PEX names no requirements, as
/// [`spec_default_roots`] picks them.
pub fn default_roots(pinned_excluded: &Vec<Vec<bool>>) -> (roots: Vec<(usize, usize)>)
    ensures
        roots@ == spec_default_roots(pinned_excluded@.map_values(|v: Vec<bool>| v@), pinned_excluded@.len()),
{
    let ghost table = pinned_excluded@.map_values(|v: Vec<bool>| v@);
    let mut roots: Vec<(usize, usize)> = Vec::new();
    let mut p: usize = 0;
    while p < pinned_excluded.len()
        invariant
            p <= pinned_excluded@.len(),
            table == pinned_excluded@.map_values(|v: Vec<bool>| v@),
            roots@ == spec_default_roots(table, p as nat),
        decreases pinned_excluded@.len() - p,
    {
        let row = &pinned_excluded[p];
        assert(table[p as int] == row@);
        let mut w: usize = 0;
        while w < row.len() && row[w]
            invariant
                w <= row@.len(),
                first_not_excluded(row@, 0) == first_not_excluded(row@, w as nat),
            decreases row@.len() - w,
        {
            w = w + 1;
        }
        if w < row.len() {
            roots.push((p, w));
        }
        p = p + 1;
    }
    roots
}

/// The metadata directories of a wheel: its `.data` directory, its
/// `.dist-info` directory and its `.pex-info` directory.
pub struct MetadataDirs {
    pub data: String,
    pub dist_info: String,
    pub pex_info: String,
}

/// A wheel a resolve picked: its file name, its project name and version as
/// written in it, whether its root is the pure-Python library directory,
/// and its metadata directories.
pub struct ResolvedWheel {
    pub file_name: String,
    pub project_name: String,
    pub version: String,
    pub root_is_purelib: bool,
    pub metadata_dirs: MetadataDirs,
}

impl ResolvedWheel {
    /// The wheel's `.data` directory.
    pub fn data_dir(&self) -> (d: &str)
        ensures
            d@ == self.metadata_dirs.data@,
    {
        self.metadata_dirs.data.as_str()
    }

    /// The wheel's `.dist-info` directory.
    pub fn dist_info_dir(&self) -> (d: &str)
        ensures
            d@ == self.metadata_dirs.dist_info@,
    {
        self.metadata_dirs.dist_info.as_str()
    }

    /// The wheel's `.pex-info` directory.
    pub fn pex_info_dir(&self) -> (d: &str)
        ensures
            d@ == self.metadata_dirs.pex_info@,
    {
        self.metadata_dirs.pex_info.as_str()
    }
}

} // verus!
