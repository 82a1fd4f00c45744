use proxy_state::list_map::ListMap;

#[test]
fn a_new_map_is_empty() {
    let map: ListMap<String, u16> = ListMap::new();
    assert_eq!(map.len(), 0);
    assert_eq!(map.get(&String::from("a")), None);
    assert!(!map.contains_key(&String::from("a")));
    assert_eq!(map.find(&String::from("a")), None);
}

#[test]
fn keys_keep_the_order_in_which_they_came() {
    let mut map: ListMap<String, u16> = ListMap::new();
    map.insert(String::from("b"), 2);
    map.insert(String::from("a"), 1);
    map.insert(String::from("c"), 3);
    assert_eq!(map.len(), 3);
    assert_eq!(map.key(0), "b");
    assert_eq!(map.key(1), "a");
    assert_eq!(map.key(2), "c");
    assert_eq!(*map.value(1), 1);
    assert_eq!(map.find(&String::from("c")), Some(2));
    assert_eq!(map.get(&String::from("a")), Some(&1));
    assert!(map.contains_key(&String::from("b")));
}

#[test]
fn a_key_that_is_held_keeps_its_place_and_takes_the_new_value() {
    let mut map: ListMap<String, u16> = ListMap::new();
    map.insert(String::from("a"), 1);
    map.insert(String::from("b"), 2);
    map.insert(String::from("a"), 10);
    assert_eq!(map.len(), 2);
    assert_eq!(map.key(0), "a");
    assert_eq!(map.get(&String::from("a")), Some(&10));
    assert_eq!(map.get(&String::from("b")), Some(&2));
}

#[test]
fn remove_takes_the_key_and_moves_the_later_entries_up() {
    let mut map: ListMap<String, u16> = ListMap::new();
    map.insert(String::from("a"), 1);
    map.insert(String::from("b"), 2);
    map.insert(String::from("c"), 3);
    map.remove(&String::from("b"));
    assert_eq!(map.len(), 2);
    assert_eq!(map.key(0), "a");
    assert_eq!(map.key(1), "c");
    assert_eq!(map.get(&String::from("b")), None);
    map.remove(&String::from("b"));
    assert_eq!(map.len(), 2);
}

#[test]
fn values_can_be_replaced_and_lists_extended_in_place() {
    let mut map: ListMap<String, Vec<u8>> = ListMap::new();
    map.insert(String::from("a"), vec![1]);
    map.insert(String::from("b"), vec![2]);
    map.push_value(0, 3);
    map.set_value(1, vec![9, 9]);
    assert_eq!(map.get(&String::from("a")), Some(&vec![1, 3]));
    assert_eq!(map.get(&String::from("b")), Some(&vec![9, 9]));
}

#[test]
fn a_copy_of_a_map_holds_the_same() {
    let mut map: ListMap<String, Vec<u8>> = ListMap::new();
    map.insert(String::from("a"), vec![1]);
    map.insert(String::from("b"), vec![2, 3]);
    let copy = map.clone();
    map.remove(&String::from("a"));
    assert_eq!(copy.len(), 2);
    assert_eq!(copy.get(&String::from("a")), Some(&vec![1]));
    assert_eq!(copy.get(&String::from("b")), Some(&vec![2, 3]));
}
