use pexrc::selection::{next_resolve_step, resolve_failure_message, Action, AttemptEvent, Choice, ResolveAttempt};

fn run(preferred_admitted: bool, candidates: usize, outcomes: &[(bool, bool)]) -> (Vec<Action>, ResolveAttempt) {
    let mut state = ResolveAttempt::new(candidates);
    let (next, mut action) = next_resolve_step(&state, AttemptEvent::Begin { preferred_admitted });
    state = next;
    let mut actions = vec![action];
    let mut i = 0;
    while let Action::Try(_) = action {
        let (admitted, resolved) = outcomes[i];
        i += 1;
        let (next, a) = next_resolve_step(&state, AttemptEvent::Outcome { admitted, resolved });
        state = next;
        action = a;
        actions.push(action);
    }
    (actions, state)
}

#[test]
fn preferred_interpreter_wins_when_it_resolves() {
    let (actions, state) = run(true, 2, &[(true, true)]);
    assert_eq!(actions, vec![Action::Try(Choice::Preferred), Action::Use(Choice::Preferred)]);
    assert_eq!(state.failures, 0);
}

#[test]
fn candidates_follow_a_failed_preferred_interpreter() {
    let (actions, state) = run(true, 3, &[(true, false), (false, false), (true, true)]);
    assert_eq!(
        actions,
        vec![
            Action::Try(Choice::Preferred),
            Action::Try(Choice::Candidate(0)),
            Action::Try(Choice::Candidate(1)),
            Action::Use(Choice::Candidate(1)),
        ]
    );
    assert_eq!(state.failures, 1);
}

#[test]
fn unqualified_preferred_interpreter_is_skipped() {
    let (actions, _) = run(false, 1, &[(true, true)]);
    assert_eq!(actions, vec![Action::Try(Choice::Candidate(0)), Action::Use(Choice::Candidate(0))]);
}

#[test]
fn gives_up_when_nothing_resolves() {
    let (actions, state) = run(false, 2, &[(true, false), (true, false)]);
    assert_eq!(
        actions,
        vec![Action::Try(Choice::Candidate(0)), Action::Try(Choice::Candidate(1)), Action::GiveUp]
    );
    assert_eq!(state.failures, 2);
    let (actions, _) = run(false, 0, &[]);
    assert_eq!(actions, vec![Action::GiveUp]);
}

#[test]
fn failure_message_lists_requirements_and_interpreters() {
    let one = resolve_failure_message(
        "app.pex",
        &vec!["six".to_string()],
        &vec![("/usr/bin/python3.12".to_string(), "no wheels".to_string())],
    );
    assert_eq!(
        one,
        "Failed to resolve dependencies of PEX app.pex.\n\nThere are 1 root requirement:\n+ six\n\nTried resolving using 1 interpreter:\n 1 /usr/bin/python3.12: no wheels"
    );
    let failures: Vec<(String, String)> = (1..=10).map(|i| (format!("/p{i}"), "x".to_string())).collect();
    let many = resolve_failure_message("a.pex", &vec!["a".to_string(), "b".to_string()], &failures);
    assert!(many.contains("There are 2 root requirements:\n+ a\n+ b\n"));
    assert!(many.contains("using 10 interpreters:\n 1 /p1: x\n"));
    assert!(many.ends_with("\n 9 /p9: x\n10 /p10: x"));
}
