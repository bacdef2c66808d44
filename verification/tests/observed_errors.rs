use moree::error::MoreeError;
use moree::observed::ObservedState;

fn names(list: &[&str]) -> Vec<String> {
    list.iter().map(|s| s.to_string()).collect()
}

#[test]
fn observed_membership() {
    let o = ObservedState::from_lists(&names(&["a", "b"]), &names(&["c"]));
    assert!(o.is_explicit(&"a".to_string()));
    assert!(!o.is_explicit(&"c".to_string()));
    assert!(o.is_dep(&"c".to_string()));
    assert!(!o.is_dep(&"a".to_string()));
    assert!(o.is_installed(&"b".to_string()));
    assert!(o.is_installed(&"c".to_string()));
    assert!(!o.is_installed(&"zzz".to_string()));
}

#[test]
fn observed_drops_repeats_keeps_order() {
    let o = ObservedState::from_lists(&names(&["b", "a", "b", "a"]), &names(&[]));
    assert_eq!(o.explicit_len(), 2);
    assert_eq!(o.explicit_at(0).as_str(), "b");
    assert_eq!(o.explicit_at(1).as_str(), "a");
}

#[test]
fn error_descriptions_are_stable() {
    assert_eq!(
        MoreeError::StateCorruption.describe(),
        "could not parse state file"
    );
    assert_eq!(
        MoreeError::AdapterFailure.describe(),
        "package manager command failed"
    );
    assert_eq!(MoreeError::Cancelled.describe(), "operation cancelled");
    assert_eq!(
        MoreeError::NoDataDirectory.describe(),
        "could not determine data directory"
    );
    assert_eq!(
        MoreeError::ConflictingFlags.describe(),
        "'--deps' and '--explicit' may not be used together"
    );
    assert_eq!(
        MoreeError::NotInstalled { missing: vec!["x".to_string()] }.describe(),
        "some packages are not installed"
    );
}
