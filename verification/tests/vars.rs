use dsh::vars::VarMap;

#[test]
fn new_store_is_empty() {
    let vars = VarMap::new();
    assert_eq!(vars.len(), 0);
    assert_eq!(vars.get("A"), None);
    assert!(!vars.contains_key("A"));
}

#[test]
fn insert_binds_and_returns_the_old_value() {
    let mut vars = VarMap::new();
    assert_eq!(vars.insert("A".to_string(), "1".to_string()), None);
    assert_eq!(vars.insert("B".to_string(), "2".to_string()), None);
    assert_eq!(vars.insert("A".to_string(), "3".to_string()), Some("1".to_string()));
    assert_eq!(vars.len(), 2);
    assert_eq!(vars.get("A"), Some(&"3".to_string()));
    assert_eq!(vars.get("B"), Some(&"2".to_string()));
    assert!(vars.contains_key("B"));
}

#[test]
fn a_name_keeps_its_position_when_bound_again() {
    let mut vars = VarMap::new();
    vars.insert("A".to_string(), "1".to_string());
    vars.insert("B".to_string(), "2".to_string());
    vars.insert("A".to_string(), "3".to_string());
    assert_eq!(vars.name_at(0), "A");
    assert_eq!(vars.value_at(0), "3");
    assert_eq!(vars.name_at(1), "B");
    assert_eq!(vars.value_at(1), "2");
}

#[test]
fn remove_unbinds_and_keeps_the_order() {
    let mut vars = VarMap::new();
    vars.insert("A".to_string(), "1".to_string());
    vars.insert("B".to_string(), "2".to_string());
    vars.insert("C".to_string(), "3".to_string());
    assert_eq!(vars.remove("B"), Some("2".to_string()));
    assert_eq!(vars.remove("B"), None);
    assert_eq!(vars.len(), 2);
    assert_eq!(vars.name_at(0), "A");
    assert_eq!(vars.name_at(1), "C");
    assert_eq!(vars.get("B"), None);
}

#[test]
fn names_are_compared_exactly() {
    let mut vars = VarMap::new();
    vars.insert("Ab".to_string(), "1".to_string());
    assert_eq!(vars.get("ab"), None);
    assert_eq!(vars.get("A"), None);
    assert_eq!(vars.get("Abc"), None);
    assert_eq!(vars.get(""), None);
}
