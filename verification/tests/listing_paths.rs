use moree::error::MoreeError;
use moree::listing::{managed_names, query_selection, unmanaged_names};
use moree::order::{sort_names, str_le};
use moree::paths::{ends_with_json, get_state_file_path, PathResolution};
use moree::state::{PackageState, PackageStates};

fn names(list: &[&str]) -> Vec<String> {
    list.iter().map(|s| s.to_string()).collect()
}

#[test]
fn managed_lists_explicit_sorted() {
    let mut s = PackageStates::new();
    s.insert("zsh".to_string(), PackageState::new(true, None));
    s.insert("lib".to_string(), PackageState::new(false, None));
    s.insert("bat".to_string(), PackageState::new(true, None));
    assert_eq!(managed_names(&s), names(&["bat", "zsh"]));
}

#[test]
fn unmanaged_lists_installed_not_managed_sorted() {
    let mut s = PackageStates::new();
    s.insert("kept".to_string(), PackageState::new(true, None));
    let installed = names(&["zz", "kept", "aa", "zz"]);
    assert_eq!(unmanaged_names(&s, &installed), names(&["aa", "zz"]));
}

#[test]
fn query_flags_mutually_exclusive() {
    let s = PackageStates::new();
    match query_selection(&s, true, true) {
        Err(MoreeError::ConflictingFlags) => {}
        other => panic!("expected ConflictingFlags, got {:?}", other),
    }
}

#[test]
fn query_filters_by_flag() {
    let mut s = PackageStates::new();
    s.insert("e2".to_string(), PackageState::new(true, None));
    s.insert("d1".to_string(), PackageState::new(false, None));
    s.insert("e1".to_string(), PackageState::new(true, None));
    assert_eq!(query_selection(&s, true, false).unwrap(), names(&["e1", "e2"]));
    assert_eq!(query_selection(&s, false, true).unwrap(), names(&["d1"]));
    assert_eq!(
        query_selection(&s, false, false).unwrap(),
        names(&["d1", "e1", "e2"])
    );
}

#[test]
fn sort_names_orders_lexicographically() {
    let sorted = sort_names(names(&["pkg10", "pkg2", "a", "pkg", "a"]));
    assert_eq!(sorted, names(&["a", "a", "pkg", "pkg10", "pkg2"]));
}

#[test]
fn str_le_prefix_and_difference() {
    assert!(str_le(&"ab".to_string(), &"abc".to_string()));
    assert!(!str_le(&"abc".to_string(), &"ab".to_string()));
    assert!(str_le(&"abc".to_string(), &"abd".to_string()));
    assert!(str_le(&String::new(), &"a".to_string()));
    assert!(str_le(&"same".to_string(), &"same".to_string()));
}

#[test]
fn json_extension_detection() {
    assert!(ends_with_json(&"state.json".to_string()));
    assert!(ends_with_json(&".json".to_string()));
    assert!(!ends_with_json(&"state.txt".to_string()));
    assert!(!ends_with_json(&"state.JSON".to_string()));
    assert!(!ends_with_json(&"json".to_string()));
}

#[test]
fn state_path_custom_override() {
    let r = get_state_file_path(&Some("/tmp/my.json".to_string()), &None);
    match r.unwrap() {
        PathResolution::Custom { path, needs_confirmation } => {
            assert_eq!(path, "/tmp/my.json");
            assert!(!needs_confirmation);
        }
        other => panic!("expected Custom, got {:?}", other),
    }
    let r2 = get_state_file_path(&Some("/tmp/my.dat".to_string()), &None);
    match r2.unwrap() {
        PathResolution::Custom { needs_confirmation, .. } => assert!(needs_confirmation),
        other => panic!("expected Custom, got {:?}", other),
    }
}

#[test]
fn state_path_default_under_data_dir() {
    let r = get_state_file_path(&None, &Some("/home/u/.local/share".to_string()));
    match r.unwrap() {
        PathResolution::Default { path } => {
            assert_eq!(path, "/home/u/.local/share/moree/state.json");
        }
        other => panic!("expected Default, got {:?}", other),
    }
}

#[test]
fn state_path_missing_data_dir_is_error() {
    match get_state_file_path(&None, &None) {
        Err(MoreeError::NoDataDirectory) => {}
        other => panic!("expected NoDataDirectory, got {:?}", other),
    }
}
