use memori::KeyedList;

#[test]
fn insert_then_get_reads_the_last_value() {
    let mut m: KeyedList<u32> = KeyedList::new();
    assert_eq!(m.len(), 0);
    m.insert("a".to_string(), 1);
    m.insert("b".to_string(), 2);
    m.insert("a".to_string(), 3);
    assert_eq!(m.get("a"), Some(&3));
    assert_eq!(m.get("b"), Some(&2));
    assert_eq!(m.get("c"), None);
    assert_eq!(m.len(), 2);
    let entries = m.into_entries();
    assert_eq!(entries, vec![("a".to_string(), 3), ("b".to_string(), 2)]);
}

#[test]
fn entries_come_out_in_ascending_order_of_name() {
    let mut m: KeyedList<u32> = KeyedList::new();
    m.insert("zeta".to_string(), 1);
    m.insert("alpha".to_string(), 2);
    m.insert("mid".to_string(), 3);
    m.insert("Zed".to_string(), 4);
    m.insert("alpha".to_string(), 5);
    let names: Vec<&str> = m.entries().iter().map(|(n, _)| n.as_str()).collect();
    assert_eq!(names, vec!["Zed", "alpha", "mid", "zeta"]);
    assert_eq!(
        m.into_entries(),
        vec![
            ("Zed".to_string(), 4),
            ("alpha".to_string(), 5),
            ("mid".to_string(), 3),
            ("zeta".to_string(), 1)
        ]
    );
}
