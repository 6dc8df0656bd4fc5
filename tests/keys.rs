use sandbox_ledger::keys::{
    same_exact, same_flex, same_flex_fuzzy, Capture, CompositeKey, FlexCompositeKey,
    FlexFuzzyCompositeKey, FlexFuzzyNodeKey, FlexFuzzySingleKey, FlexKeyElem, FlexNodeKey,
    FlexSingleKey, FuzzyCompositeKey, FuzzyNodeKey, FuzzySingleKey, NodeKey, Resolve, SingleKey,
    UnResolve,
};

#[test]
fn fuzzy_key_captures() {
    let fuzzy_key = FuzzySingleKey(None);
    let candidate = SingleKey("test".into());
    assert!(fuzzy_key.captures(&candidate));

    let fuzzy_key = FuzzySingleKey(Some("test".into()));
    let candidate = SingleKey("test".into());
    assert!(fuzzy_key.captures(&candidate));

    let fuzzy_key = FuzzyCompositeKey(None, None);
    let candidate = CompositeKey("test1".into(), "test2".into());
    assert!(fuzzy_key.captures(&candidate));

    let fuzzy_key = FuzzyCompositeKey(None, Some("test2".into()));
    let candidate = CompositeKey("test1".into(), "test2".into());
    assert!(fuzzy_key.captures(&candidate));

    let fuzzy_key = FuzzyCompositeKey(Some("test1".into()), None);
    let candidate = CompositeKey("test1".into(), "test2".into());
    assert!(fuzzy_key.captures(&candidate));

    let fuzzy_key = FuzzyCompositeKey(Some("test1".into()), Some("test2".into()));
    let candidate = CompositeKey("test1".into(), "test2".into());
    assert!(fuzzy_key.captures(&candidate));

    let fuzzy_key = FuzzyCompositeKey(Some("test1".into()), Some("test2".into()));
    let candidate = CompositeKey("test0".into(), "test2".into());
    assert!(!fuzzy_key.captures(&candidate));

    let fuzzy_key = FuzzyCompositeKey(None, Some("test2".into()));
    let candidate = CompositeKey("test1".into(), "test3".into());
    assert!(!fuzzy_key.captures(&candidate));
}

#[test]
fn flex_key_resolves() {
    let flex_key = FlexSingleKey(FlexKeyElem::This);
    let resolved_key = flex_key.resolve("current_authority".into());
    assert_eq!(resolved_key, SingleKey("current_authority".into()));

    let flex_key = FlexCompositeKey(FlexKeyElem::That("alice".into()), "rose".into());
    let resolved_key = flex_key.resolve("current_authority".into());
    assert_eq!(resolved_key, CompositeKey("alice".into(), "rose".into()));
}

#[test]
fn wildcard_pattern_captures_any_key() {
    let all = FuzzyCompositeKey(None, None);
    for (a, b) in [("alice", "rose"), ("", ""), ("bob", "tulip")] {
        assert!(all.captures(&CompositeKey(a.into(), b.into())));
    }
}

#[test]
fn differing_first_element_is_not_captured() {
    let pattern = FuzzyCompositeKey(Some("alice".into()), None);
    assert!(!pattern.captures(&CompositeKey("carol".into(), "rose".into())));
    let pattern = FuzzySingleKey(Some("alice".into()));
    assert!(!pattern.captures(&SingleKey("carol".into())));
}

#[test]
fn pattern_captures_pattern_only_with_matching_wildcards() {
    let wide = FuzzyCompositeKey(None, Some("rose".into()));
    let narrow = FuzzyCompositeKey(Some("alice".into()), Some("rose".into()));
    assert!(wide.captures(&narrow));
    assert!(!narrow.captures(&wide));
    assert!(wide.captures(&wide.clone()));
    let all = FuzzyCompositeKey(None, None);
    assert!(all.captures(&wide));
    assert!(!wide.captures(&all));

    let node_wide = FuzzyNodeKey::AccountAsset(wide);
    let node_narrow = FuzzyNodeKey::AccountAsset(narrow);
    assert!(node_wide.captures(&node_narrow));
    assert!(!node_narrow.captures(&node_wide));
    assert!(node_wide.captures(&NodeKey::AccountAsset(CompositeKey("x".into(), "rose".into()))));
    assert!(!node_wide.captures(&NodeKey::AccountAsset(CompositeKey("x".into(), "tulip".into()))));
}

#[test]
fn resolution_ignores_authority_for_explicit_elements() {
    let that = FlexKeyElem::That("bob".into());
    assert_eq!(that.clone().resolve("alice".into()), "bob".to_string());
    assert_eq!(that.resolve("carol".into()), "bob".to_string());
    assert_eq!(FlexKeyElem::This.resolve("alice".into()), "alice".to_string());
}

#[test]
fn resolution_of_patterns_and_node_keys() {
    let p = FlexFuzzySingleKey(Some(FlexKeyElem::This)).resolve("alice".into());
    assert_eq!(p, FuzzySingleKey(Some("alice".into())));
    let p = FlexFuzzySingleKey(None).resolve("alice".into());
    assert_eq!(p, FuzzySingleKey(None));

    let p = FlexFuzzyCompositeKey(Some(FlexKeyElem::This), None).resolve("alice".into());
    assert_eq!(p, FuzzyCompositeKey(Some("alice".into()), None));

    let k = FlexNodeKey::AccountAsset(FlexCompositeKey(FlexKeyElem::This, "rose".into()))
        .resolve("dave".into());
    assert_eq!(k, NodeKey::AccountAsset(CompositeKey("dave".into(), "rose".into())));

    let p = FlexFuzzyNodeKey::AccountAsset(FlexFuzzyCompositeKey(
        Some(FlexKeyElem::That("eve".into())),
        Some("tulip".into()),
    ))
    .resolve("dave".into());
    assert_eq!(
        p,
        FuzzyNodeKey::AccountAsset(FuzzyCompositeKey(Some("eve".into()), Some("tulip".into())))
    );
}

#[test]
fn resolving_twice_gives_the_same_element() {
    let once = FlexKeyElem::This.resolve("alice".into());
    let twice = once.clone().unresolve().resolve("bob".into());
    assert_eq!(once, twice);
    assert_eq!("x".to_string().unresolve(), FlexKeyElem::That("x".into()));
}

#[test]
fn keys_compare_by_content() {
    let a = NodeKey::AccountAsset(CompositeKey("a".into(), "b".into()));
    let b = NodeKey::AccountAsset(CompositeKey("a".into(), "c".into()));
    assert!(same_exact(&a, &a.duplicate()));
    assert!(!same_exact(&a, &b));

    let f = FlexNodeKey::AccountAsset(FlexCompositeKey(FlexKeyElem::This, "b".into()));
    let g = FlexNodeKey::AccountAsset(FlexCompositeKey(FlexKeyElem::That("a".into()), "b".into()));
    assert!(same_flex(&f, &f.duplicate()));
    assert!(!same_flex(&f, &g));

    let p = FlexFuzzyNodeKey::AccountAsset(FlexFuzzyCompositeKey(Some(FlexKeyElem::This), None));
    let q = FlexFuzzyNodeKey::AccountAsset(FlexFuzzyCompositeKey(None, None));
    assert!(same_flex_fuzzy(&p, &p.duplicate()));
    assert!(!same_flex_fuzzy(&p, &q));
}

#[test]
fn super_keys_are_all_generalizations() {
    let key = CompositeKey("alice".into(), "rose".into());
    let supers = sandbox_ledger::keys::super_keys(&key);
    assert_eq!(supers.len(), 4);
    for p in &supers {
        assert!(p.captures(&key));
    }
    assert!(supers.contains(&FuzzyCompositeKey(None, None)));
    assert!(supers.contains(&FuzzyCompositeKey(None, Some("rose".into()))));
    assert!(supers.contains(&FuzzyCompositeKey(Some("alice".into()), None)));
    assert!(supers.contains(&FuzzyCompositeKey(Some("alice".into()), Some("rose".into()))));
}
