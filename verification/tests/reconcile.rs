use moree::observed::ObservedState;
use moree::reconcile::{apply, apply_sync, plan, run, Policy};
use moree::state::{PackageState, PackageStates};

fn states(entries: &[(&str, bool)]) -> PackageStates {
    let mut s = PackageStates::new();
    for (name, explicit) in entries {
        s.insert(name.to_string(), PackageState::new(*explicit, None));
    }
    s
}

fn observed(explicit: &[&str], deps: &[&str]) -> ObservedState {
    let e: Vec<String> = explicit.iter().map(|s| s.to_string()).collect();
    let d: Vec<String> = deps.iter().map(|s| s.to_string()).collect();
    ObservedState::from_lists(&e, &d)
}

#[test]
fn plan_full_sync_batches() {
    // a wants installing, b wants marking, c wants removing.
    let d = states(&[("a", true), ("b", false)]);
    let o = observed(&["b", "c"], &[]);
    let p = apply_sync(&d, &o);
    assert_eq!(p.to_install_explicit, vec!["a".to_string()]);
    assert_eq!(p.to_mark_as_dependency, vec!["b".to_string()]);
    assert_eq!(p.to_remove, vec!["c".to_string()]);
}

#[test]
fn plan_idempotence_on_applied_snapshot() {
    // Carry the full-sync plan out conceptually, replan against the result:
    // nothing to install, nothing to remove, the mark batch unchanged.
    let d = states(&[("a", true), ("b", false)]);
    let o = observed(&["b", "c"], &[]);
    let first = apply_sync(&d, &o);
    assert_eq!(first.to_install_explicit, vec!["a".to_string()]);
    // After the plan: a installed explicit, b moved to the dependency side,
    // c removed.
    let o2 = observed(&["a"], &["b"]);
    let second = apply_sync(&d, &o2);
    assert!(second.to_install_explicit.is_empty());
    assert!(second.to_remove.is_empty());
    assert_eq!(second.to_mark_as_dependency, first.to_mark_as_dependency);
}

#[test]
fn policy_monotonicity_flags() {
    let d = states(&[("a", true), ("b", false)]);
    let o = observed(&["b", "c"], &[]);
    let no_install = plan(&d, &o, Policy { installs: false, uninstalls: true });
    assert!(no_install.to_install_explicit.is_empty());
    assert_eq!(no_install.to_remove, vec!["c".to_string()]);
    let no_uninstall = plan(&d, &o, Policy { installs: true, uninstalls: false });
    assert!(no_uninstall.to_remove.is_empty());
    assert_eq!(no_uninstall.to_install_explicit, vec!["a".to_string()]);
    // The mark batch does not depend on the flags at all.
    let neither = plan(&d, &o, Policy { installs: false, uninstalls: false });
    assert_eq!(neither.to_mark_as_dependency, vec!["b".to_string()]);
    assert_eq!(no_install.to_mark_as_dependency, vec!["b".to_string()]);
    assert_eq!(no_uninstall.to_mark_as_dependency, vec!["b".to_string()]);
}

#[test]
fn full_sync_normalization() {
    // --with-install --with-uninstall together, --sync alone, and the
    // full-sync policy produce identical plans.
    let d = states(&[("a", true), ("b", false), ("x", true)]);
    let o = observed(&["b", "c"], &["x"]);
    let both_flags = run(&d, &o, true, true, false);
    let sync_flag = run(&d, &o, false, false, true);
    let direct = apply_sync(&d, &o);
    assert_eq!(both_flags.to_install_explicit, direct.to_install_explicit);
    assert_eq!(both_flags.to_mark_as_dependency, direct.to_mark_as_dependency);
    assert_eq!(both_flags.to_remove, direct.to_remove);
    assert_eq!(sync_flag.to_install_explicit, direct.to_install_explicit);
    assert_eq!(sync_flag.to_mark_as_dependency, direct.to_mark_as_dependency);
    assert_eq!(sync_flag.to_remove, direct.to_remove);
}

#[test]
fn misclassification_is_not_installation() {
    // D = {A: explicit, B: dependency-only}, O = {explicit: {B}, deps: {A}}.
    // A is already installed, just misclassified: the plan neither installs
    // nor removes, and only re-marks B.
    let mut d = PackageStates::new();
    d.insert(
        "A".to_string(),
        PackageState::new(true, Some("build tool".to_string())),
    );
    d.insert("B".to_string(), PackageState::new(false, None));
    let o = observed(&["B"], &["A"]);
    let p = apply_sync(&d, &o);
    assert!(p.to_install_explicit.is_empty());
    assert_eq!(p.to_mark_as_dependency, vec!["B".to_string()]);
    assert!(p.to_remove.is_empty());
}

#[test]
fn empty_desired_state_plans_nothing_but_removals() {
    // D = {}: with any policy there is nothing to install or mark; X is
    // unmanaged, so it is removed exactly when uninstalls are permitted.
    let d = PackageStates::new();
    let o = observed(&["X"], &[]);
    let p = plan(&d, &o, Policy { installs: true, uninstalls: false });
    assert!(p.to_install_explicit.is_empty());
    assert!(p.to_mark_as_dependency.is_empty());
    assert!(p.to_remove.is_empty());
    let p2 = apply_sync(&d, &o);
    assert!(p2.to_install_explicit.is_empty());
    assert!(p2.to_mark_as_dependency.is_empty());
    assert_eq!(p2.to_remove, vec!["X".to_string()]);
}

#[test]
fn managed_dependency_never_removed() {
    // b is managed as dependency-only: even a full sync never removes it.
    let d = states(&[("b", false)]);
    let o = observed(&[], &["b"]);
    let p = apply_sync(&d, &o);
    assert!(p.to_install_explicit.is_empty());
    // Re-marking an installed dependency is always planned.
    assert_eq!(p.to_mark_as_dependency, vec!["b".to_string()]);
    assert!(p.to_remove.is_empty());
}

#[test]
fn remove_batch_deduplicates_across_lists() {
    // A name the manager reports on both sides is removed once.
    let d = PackageStates::new();
    let o = observed(&["x", "y"], &["y", "z"]);
    let p = apply_sync(&d, &o);
    assert_eq!(
        p.to_remove,
        vec!["x".to_string(), "y".to_string(), "z".to_string()]
    );
}

#[test]
fn policy_from_flags_normalizes() {
    assert_eq!(Policy::from_flags(true, true, false), Policy::full_sync());
    assert_eq!(Policy::from_flags(false, false, true), Policy::full_sync());
    assert_eq!(
        Policy::from_flags(true, false, false),
        Policy { installs: true, uninstalls: false }
    );
    assert_eq!(
        Policy::from_flags(false, true, false),
        Policy { installs: false, uninstalls: true }
    );
}

#[test]
fn plan_is_empty_reports() {
    let d = PackageStates::new();
    let o = observed(&[], &[]);
    let p = apply_sync(&d, &o);
    assert!(p.is_empty());
    let d2 = states(&[("a", true)]);
    let p2 = apply(&d2, &o, true, false);
    assert!(!p2.is_empty());
}
