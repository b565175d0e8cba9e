use matrix_user_swap::text_map::TextMap;

#[test]
fn entries_are_in_key_order() {
    let mut map: TextMap<u32> = TextMap::new();
    map.insert("b".to_string(), 2);
    map.insert("a".to_string(), 1);
    map.insert("b".to_string(), 3);
    assert_eq!(map.len(), 2);
    assert_eq!(map.get("b"), Some(&3));
    assert_eq!(map.get("c"), None);
    assert!(map.contains_key("a"));
    assert_eq!(map.into_entries(), vec![("a".to_string(), 1), ("b".to_string(), 3)]);
}
