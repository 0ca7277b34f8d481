use codem::keyed::KeyedTable;

#[test]
fn a_read_gives_back_the_last_write() {
    let mut t: KeyedTable<u32> = KeyedTable::new();
    assert!(t.is_empty());
    t.insert("a".to_string(), 1);
    t.insert("b".to_string(), 2);
    t.insert("a".to_string(), 3);
    assert_eq!(t.get("a"), Some(&3));
    assert_eq!(t.get("b"), Some(&2));
    assert_eq!(t.get("c"), None);
    assert_eq!(t.keys(), vec!["a".to_string(), "b".to_string()]);
}

#[test]
fn removal_takes_only_its_key() {
    let mut t: KeyedTable<u32> = KeyedTable::new();
    t.insert("a".to_string(), 1);
    t.insert("b".to_string(), 2);
    t.remove("a");
    assert!(!t.contains_key("a"));
    assert_eq!(t.get("b"), Some(&2));
    t.remove("zzz");
    assert_eq!(t.keys(), vec!["b".to_string()]);
    t.remove("b");
    assert!(t.is_empty());
}

#[test]
fn writes_through_a_borrow_are_kept() {
    let mut t: KeyedTable<u32> = KeyedTable::new();
    t.insert("k".to_string(), 1);
    *t.get_mut("k").unwrap() = 9;
    assert_eq!(t.get("k"), Some(&9));
    assert!(t.get_mut("x").is_none());
}
