use moree::diff::{diff, DiffKind};
use moree::observed::ObservedState;
use moree::state::{PackageState, PackageStates};

fn observed(explicit: &[&str], deps: &[&str]) -> ObservedState {
    let e: Vec<String> = explicit.iter().map(|s| s.to_string()).collect();
    let d: Vec<String> = deps.iter().map(|s| s.to_string()).collect();
    ObservedState::from_lists(&e, &d)
}

#[test]
fn diff_two_transitions() {
    // D = {A: explicit/memo, B: dependency-only},
    // O = {explicit: {B}, deps: {A}}: exactly two transition entries.
    let mut d = PackageStates::new();
    d.insert(
        "A".to_string(),
        PackageState::new(true, Some("build tool".to_string())),
    );
    d.insert("B".to_string(), PackageState::new(false, None));
    let o = observed(&["B"], &["A"]);
    let r = diff(&d, &o, false);
    assert_eq!(r.len(), 2);
    assert_eq!(r[0].name, "A");
    assert_eq!(r[0].kind, DiffKind::ShouldBeExplicit);
    assert_eq!(r[1].name, "B");
    assert_eq!(r[1].kind, DiffKind::ShouldBeDependency);
}

#[test]
fn diff_empty_desired_all_reports_unmanaged() {
    // D = {}, O = {explicit: {X}}: the "all" report has exactly one entry,
    // X unmanaged.
    let d = PackageStates::new();
    let o = observed(&["X"], &[]);
    let r = diff(&d, &o, true);
    assert_eq!(r.len(), 1);
    assert_eq!(r[0].name, "X");
    assert_eq!(r[0].kind, DiffKind::Unmanaged);
    // Without "all" there is nothing to report.
    assert!(diff(&d, &o, false).is_empty());
}

#[test]
fn diff_suppresses_unmanaged_dependencies() {
    // A package dependency-only on both sides (absent from D, in the
    // dependency list of O) never appears, even in the "all" report.
    let mut d = PackageStates::new();
    d.insert("kept".to_string(), PackageState::new(true, None));
    let o = observed(&["kept"], &["noise1", "noise2"]);
    let r = diff(&d, &o, true);
    for entry in &r {
        assert_ne!(entry.name, "noise1");
        assert_ne!(entry.name, "noise2");
    }
}

#[test]
fn diff_matching_states_silent() {
    // Desired matches observed: no entries without "all".
    let mut d = PackageStates::new();
    d.insert("a".to_string(), PackageState::new(true, None));
    d.insert("b".to_string(), PackageState::new(false, None));
    let o = observed(&["a"], &["b"]);
    assert!(diff(&d, &o, false).is_empty());
    assert!(diff(&d, &o, true).is_empty());
}

#[test]
fn diff_all_reports_not_installed() {
    // Managed explicit but absent from both observed sets: reported only
    // with "all".
    let mut d = PackageStates::new();
    d.insert("gone".to_string(), PackageState::new(true, None));
    let o = observed(&[], &[]);
    assert!(diff(&d, &o, false).is_empty());
    let r = diff(&d, &o, true);
    assert_eq!(r.len(), 1);
    assert_eq!(r[0].name, "gone");
    assert_eq!(r[0].kind, DiffKind::NotInstalled);
}

#[test]
fn diff_order_is_deterministic() {
    // Transitions in desired order, then not-installed, then unmanaged.
    let mut d = PackageStates::new();
    d.insert("t1".to_string(), PackageState::new(true, None));
    d.insert("miss".to_string(), PackageState::new(true, None));
    d.insert("t2".to_string(), PackageState::new(false, None));
    let o = observed(&["t2", "um"], &["t1"]);
    let r = diff(&d, &o, true);
    let names: Vec<&str> = r.iter().map(|e| e.name.as_str()).collect();
    assert_eq!(names, vec!["t1", "t2", "miss", "um"]);
    assert_eq!(r[0].kind, DiffKind::ShouldBeExplicit);
    assert_eq!(r[1].kind, DiffKind::ShouldBeDependency);
    assert_eq!(r[2].kind, DiffKind::NotInstalled);
    assert_eq!(r[3].kind, DiffKind::Unmanaged);
}
