use chaos::node_map::NodeMap;

#[test]
fn empty_map_holds_nothing() {
    let map: NodeMap<u32> = NodeMap::new();
    assert!(!map.contains_key(&"n1".to_string()));
    assert!(map.get(&"n1".to_string()).is_none());
    assert!(map.keys().is_empty());
}

#[test]
fn insert_then_get() {
    let mut map: NodeMap<u32> = NodeMap::new();
    map.insert("n1".to_string(), 1);
    map.insert("n2".to_string(), 2);
    assert_eq!(map.get(&"n1".to_string()), Some(&1));
    assert_eq!(map.get(&"n2".to_string()), Some(&2));
    assert_eq!(map.get(&"n3".to_string()), None);
    assert!(map.contains_key(&"n2".to_string()));
}

#[test]
fn insert_replaces_an_earlier_binding() {
    let mut map: NodeMap<u32> = NodeMap::new();
    map.insert("n1".to_string(), 1);
    map.insert("n2".to_string(), 2);
    map.insert("n1".to_string(), 10);
    assert_eq!(map.get(&"n1".to_string()), Some(&10));
    assert_eq!(map.get(&"n2".to_string()), Some(&2));
    let mut keys = map.keys();
    keys.sort();
    assert_eq!(keys, vec!["n1".to_string(), "n2".to_string()]);
}

#[test]
fn remove_hands_the_value_back() {
    let mut map: NodeMap<u32> = NodeMap::new();
    map.insert("n1".to_string(), 1);
    map.insert("n2".to_string(), 2);
    map.insert("n3".to_string(), 3);
    assert_eq!(map.remove(&"n2".to_string()), Some(2));
    assert_eq!(map.remove(&"n2".to_string()), None);
    assert_eq!(map.get(&"n1".to_string()), Some(&1));
    assert_eq!(map.get(&"n3".to_string()), Some(&3));
    assert!(!map.contains_key(&"n2".to_string()));
    let mut keys = map.keys();
    keys.sort();
    assert_eq!(keys, vec!["n1".to_string(), "n3".to_string()]);
}

#[test]
fn names_are_compared_by_their_characters() {
    let mut map: NodeMap<u32> = NodeMap::new();
    map.insert(String::from("n") + "1", 1);
    assert_eq!(map.get(&format!("n{}", 1)), Some(&1));
    assert_eq!(map.get(&"N1".to_string()), None);
    assert_eq!(map.get(&"".to_string()), None);
}
