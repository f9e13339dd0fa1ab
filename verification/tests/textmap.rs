use herdr_updater::textmap::TextMap;

#[test]
fn keys_stay_in_order_and_are_replaced() {
    let mut map = TextMap::new();
    for (key, value) in [("b", 1), ("a", 2), ("c", 3), ("b", 4)] {
        map.insert(key.to_string(), value);
    }
    assert_eq!(map.len(), 3);
    let keys: Vec<&str> = (0..map.len()).map(|i| map.key_at(i).as_str()).collect();
    assert_eq!(keys, vec!["a", "b", "c"]);
    assert_eq!(map.get("b"), Some(&4));
    map.remove("b");
    assert!(!map.contains_key("b"));
    assert_eq!(map.len(), 2);
    map.remove("nothing");
    assert_eq!(map.len(), 2);
}
