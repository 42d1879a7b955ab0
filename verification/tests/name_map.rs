use galec::collections::name_map::NameMap;

#[test]
fn the_latest_binding_of_a_name_is_found() {
    let mut m: NameMap<i32> = NameMap::new();
    assert_eq!(m.get(&"x".to_string()), None);
    m.insert("x".to_string(), 1);
    m.insert("y".to_string(), 2);
    m.insert("x".to_string(), 3);
    assert_eq!(m.get(&"x".to_string()), Some(&3));
    assert_eq!(m.get(&"y".to_string()), Some(&2));
    assert_eq!(m.get(&"z".to_string()), None);
    assert_eq!(m.get(&"".to_string()), None);
}
