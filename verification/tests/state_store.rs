use moree::state::{PackageState, PackageStates};

#[test]
fn memo_empty_string_normalizes_to_absent() {
    // Writing an empty-string memo and writing an absent memo produce
    // identical records.
    let with_empty = PackageState::new(true, Some(String::new()));
    let with_none = PackageState::new(true, None);
    assert_eq!(with_empty, with_none);
    assert_eq!(with_empty.memo, None);
    let kept = PackageState::new(false, Some("why".to_string()));
    assert_eq!(kept.memo, Some("why".to_string()));
    assert!(!kept.explicit);
}

#[test]
fn insert_updates_in_place_and_appends() {
    let mut s = PackageStates::new();
    s.insert("a".to_string(), PackageState::new(true, None));
    s.insert("b".to_string(), PackageState::new(false, None));
    assert_eq!(s.len(), 2);
    // Updating a managed package keeps its position and the other entries.
    s.insert("a".to_string(), PackageState::new(false, Some("m".to_string())));
    assert_eq!(s.len(), 2);
    assert_eq!(s.name_at(0).as_str(), "a");
    assert_eq!(s.name_at(1).as_str(), "b");
    assert_eq!(
        s.get(&"a".to_string()).cloned(),
        Some(PackageState { explicit: false, memo: Some("m".to_string()) })
    );
    assert_eq!(
        s.get(&"b".to_string()).cloned(),
        Some(PackageState { explicit: false, memo: None })
    );
}

#[test]
fn get_and_contains_on_missing_name() {
    let s = PackageStates::new();
    assert!(s.get(&"nope".to_string()).is_none());
    assert!(!s.contains_key(&"nope".to_string()));
    assert!(!s.is_explicit(&"nope".to_string()));
}

#[test]
fn set_explicit_keeps_memo() {
    let mut s = PackageStates::new();
    s.insert(
        "a".to_string(),
        PackageState::new(false, Some("kept".to_string())),
    );
    s.set_explicit(&"a".to_string(), true);
    assert_eq!(
        s.get(&"a".to_string()).cloned(),
        Some(PackageState { explicit: true, memo: Some("kept".to_string()) })
    );
}

#[test]
fn set_memo_normalizes_and_keeps_flag() {
    let mut s = PackageStates::new();
    s.insert("a".to_string(), PackageState::new(true, Some("old".to_string())));
    s.set_memo(&"a".to_string(), Some("new".to_string()));
    assert_eq!(
        s.get(&"a".to_string()).cloned(),
        Some(PackageState { explicit: true, memo: Some("new".to_string()) })
    );
    // An empty replacement memo is recorded as absence.
    s.set_memo(&"a".to_string(), Some(String::new()));
    assert_eq!(
        s.get(&"a".to_string()).cloned(),
        Some(PackageState { explicit: true, memo: None })
    );
}

#[test]
fn persisted_shape_round_trips() {
    // The persisted shape is a map from package name to
    // { explicit: bool, memo: string|null }.  Serializing it and parsing
    // it back preserves explicit and memo exactly.
    let mut s = PackageStates::new();
    s.insert(
        "alpha".to_string(),
        PackageState::new(true, Some("build tool".to_string())),
    );
    s.insert("beta".to_string(), PackageState::new(false, None));

    let mut map = serde_json::Map::new();
    for i in 0..s.len() {
        let name = s.name_at(i).clone();
        let st = s.state_at(i).clone();
        let mut obj = serde_json::Map::new();
        obj.insert("explicit".to_string(), serde_json::Value::Bool(st.explicit));
        let memo_value = match st.memo {
            Some(m) => serde_json::Value::String(m),
            None => serde_json::Value::Null,
        };
        obj.insert("memo".to_string(), memo_value);
        map.insert(name, serde_json::Value::Object(obj));
    }
    let text = serde_json::to_string_pretty(&serde_json::Value::Object(map)).unwrap();

    let parsed: serde_json::Value = serde_json::from_str(&text).unwrap();
    let mut restored = PackageStates::new();
    for (name, value) in parsed.as_object().unwrap() {
        let explicit = value.get("explicit").unwrap().as_bool().unwrap();
        let memo = match value.get("memo").unwrap() {
            serde_json::Value::Null => None,
            v => Some(v.as_str().unwrap().to_string()),
        };
        restored.insert(name.clone(), PackageState { explicit, memo });
    }

    assert_eq!(restored.len(), s.len());
    for name in ["alpha", "beta"] {
        assert_eq!(
            restored.get(&name.to_string()).cloned(),
            s.get(&name.to_string()).cloned()
        );
    }
}
