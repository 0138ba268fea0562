use codex_administrator::text_map::TextMap;

#[test]
fn text_map_holds_each_key_once() {
    let mut map: TextMap<u32> = TextMap::new();
    assert_eq!(map.len(), 0);
    map.insert("beta".into(), 1);
    map.insert("alpha".into(), 2);
    map.insert("beta".into(), 3);
    assert_eq!(map.len(), 2);
    assert_eq!(map.get("beta"), Some(&3));
    assert!(map.contains_key("alpha"));
    assert!(!map.contains_key("gamma"));
    map.remove("alpha");
    map.remove("gamma");
    assert_eq!(map.len(), 1);
    assert_eq!(map.get("alpha"), None);
}

#[test]
fn sorted_entries_come_in_key_order() {
    let mut map: TextMap<u32> = TextMap::new();
    for (i, key) in ["zeta", "Alpha", "alpha", "é", "b"].iter().enumerate() {
        map.insert(key.to_string(), i as u32);
    }
    assert_eq!(map.sorted_keys(), vec!["Alpha", "alpha", "b", "zeta", "é"]);
    let entries = map.into_sorted_entries();
    assert_eq!(entries[0], ("Alpha".to_string(), 1));
    assert_eq!(entries[4], ("é".to_string(), 3));
}
