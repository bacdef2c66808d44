use moree::error::MoreeError;
use moree::session::{
    check_candidates, run_session, save_decision, select_candidates, Answer, SessionOutcome,
};
use moree::state::{PackageState, PackageStates};

fn names(list: &[&str]) -> Vec<String> {
    list.iter().map(|s| s.to_string()).collect()
}

fn state_of(states: &PackageStates, name: &str) -> Option<PackageState> {
    states.get(&name.to_string()).cloned()
}

#[test]
fn session_writes_answers() {
    let mut s = PackageStates::new();
    let candidates = names(&["a", "b", "c"]);
    let answers = vec![
        Answer::Yes { memo: Some("editor".to_string()) },
        Answer::No,
        Answer::Skip,
    ];
    let outcome = run_session(&mut s, &candidates, &answers);
    assert_eq!(outcome, SessionOutcome::Completed);
    assert_eq!(
        state_of(&s, "a"),
        Some(PackageState { explicit: true, memo: Some("editor".to_string()) })
    );
    assert_eq!(
        state_of(&s, "b"),
        Some(PackageState { explicit: false, memo: None })
    );
    assert_eq!(state_of(&s, "c"), None);
}

#[test]
fn session_skips_already_explicit() {
    // A candidate already affirmed explicit is skipped silently: its answer
    // is never consulted.
    let mut s = PackageStates::new();
    s.insert("a".to_string(), PackageState::new(true, None));
    let candidates = names(&["a"]);
    let answers = vec![Answer::Quit];
    let outcome = run_session(&mut s, &candidates, &answers);
    assert_eq!(outcome, SessionOutcome::Completed);
    assert_eq!(
        state_of(&s, "a"),
        Some(PackageState { explicit: true, memo: None })
    );
}

#[test]
fn session_quit_keeps_memory_writes() {
    // Quitting stops the walk but rolls nothing back.
    let mut s = PackageStates::new();
    let candidates = names(&["a", "b", "c"]);
    let answers = vec![Answer::No, Answer::Quit, Answer::No];
    let outcome = run_session(&mut s, &candidates, &answers);
    assert_eq!(outcome, SessionOutcome::QuitAt { index: 1 });
    assert_eq!(
        state_of(&s, "a"),
        Some(PackageState { explicit: false, memo: None })
    );
    assert_eq!(state_of(&s, "b"), None);
    assert_eq!(state_of(&s, "c"), None);
}

#[test]
fn session_empty_memo_equals_absent_memo() {
    // Answering yes with an empty memo writes the same record as answering
    // yes with no memo at all.
    let mut s1 = PackageStates::new();
    let mut s2 = PackageStates::new();
    let candidates = names(&["a"]);
    run_session(
        &mut s1,
        &candidates,
        &vec![Answer::Yes { memo: Some(String::new()) }],
    );
    run_session(&mut s2, &candidates, &vec![Answer::Yes { memo: None }]);
    assert_eq!(state_of(&s1, "a"), state_of(&s2, "a"));
    assert_eq!(
        state_of(&s1, "a"),
        Some(PackageState { explicit: true, memo: None })
    );
}

#[test]
fn session_resumable_after_quit() {
    // A session quit at the second candidate and kept, then started over
    // with answers that agree before the quit point, ends exactly where one
    // uninterrupted session would have.
    let candidates = names(&["a", "b", "c"]);
    let first = vec![
        Answer::No,
        Answer::Quit,
        Answer::Yes { memo: Some("x".to_string()) },
    ];
    let full = vec![
        Answer::No,
        Answer::Yes { memo: Some("db".to_string()) },
        Answer::Yes { memo: Some("x".to_string()) },
    ];

    let mut resumed = PackageStates::new();
    let outcome1 = run_session(&mut resumed, &candidates, &first);
    assert_eq!(outcome1, SessionOutcome::QuitAt { index: 1 });
    let outcome2 = run_session(&mut resumed, &candidates, &full);
    assert_eq!(outcome2, SessionOutcome::Completed);

    let mut single = PackageStates::new();
    let outcome3 = run_session(&mut single, &candidates, &full);
    assert_eq!(outcome3, SessionOutcome::Completed);

    for name in ["a", "b", "c"] {
        assert_eq!(state_of(&resumed, name), state_of(&single, name));
    }
    assert_eq!(resumed.len(), single.len());
}

#[test]
fn session_replay_is_deterministic() {
    // Identical inputs give identical resulting states and outcomes.
    let candidates = names(&["a", "b"]);
    let answers = vec![Answer::Yes { memo: None }, Answer::Quit];
    let mut s1 = PackageStates::new();
    let mut s2 = PackageStates::new();
    let o1 = run_session(&mut s1, &candidates, &answers);
    let o2 = run_session(&mut s2, &candidates, &answers);
    assert_eq!(o1, o2);
    for name in ["a", "b"] {
        assert_eq!(state_of(&s1, name), state_of(&s2, name));
    }
}

#[test]
fn check_candidates_accepts_installed() {
    let requested = names(&["x", "y"]);
    let installed = names(&["y", "x", "z"]);
    let r = check_candidates(&requested, &installed);
    assert_eq!(r.unwrap(), names(&["x", "y"]));
}

#[test]
fn check_candidates_enumerates_missing() {
    // Every missing package is listed, and nothing is processed.
    let requested = names(&["x", "absent1", "y", "absent2"]);
    let installed = names(&["x", "y"]);
    match check_candidates(&requested, &installed) {
        Err(MoreeError::NotInstalled { missing }) => {
            assert_eq!(missing, names(&["absent1", "absent2"]));
        }
        other => panic!("expected NotInstalled, got {:?}", other),
    }
}

#[test]
fn select_candidates_empty_request_scans_all() {
    let requested: Vec<String> = Vec::new();
    let installed = names(&["p", "q"]);
    let r = select_candidates(&requested, &installed);
    assert_eq!(r.unwrap(), names(&["p", "q"]));
}

#[test]
fn save_decision_rules() {
    assert!(save_decision(&SessionOutcome::Completed, false));
    assert!(save_decision(&SessionOutcome::Completed, true));
    assert!(save_decision(&SessionOutcome::QuitAt { index: 3 }, true));
    assert!(!save_decision(&SessionOutcome::QuitAt { index: 3 }, false));
}
