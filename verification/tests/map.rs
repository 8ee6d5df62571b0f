use lispbm_lsp::map::StrMap;

#[test]
fn map_insert_get_remove_keep_order() {
    let mut m: StrMap<Vec<String>> = StrMap::new();
    m.insert("b".to_string(), vec!["1".to_string()]);
    m.insert("a".to_string(), vec!["2".to_string()]);
    m.insert("b".to_string(), vec!["3".to_string()]);
    assert_eq!(m.len(), 2);
    assert_eq!(m.key_at(0), "b");
    assert_eq!(m.get("b").unwrap(), &vec!["3".to_string()]);
    assert!(m.contains_key("a"));
    assert_eq!(m.find("a"), Some(1));
    assert_eq!(m.remove("b"), Some(vec!["3".to_string()]));
    assert_eq!(m.remove("b"), None);
    assert_eq!(m.key_at(0), "a");
    assert!(m.get("b").is_none());
    let old = m.replace_at(0, vec![]);
    assert_eq!(old, vec!["2".to_string()]);
    assert!(m.value_at(0).is_empty());
    let pairs = m.into_pairs();
    assert_eq!(pairs.len(), 1);
}
