use ttrpc_trace::bag::MetadataBag;

fn strings(items: &[&str]) -> Vec<String> {
    items.iter().map(|s| s.to_string()).collect()
}

#[test]
fn new_bag_has_no_keys() {
    let bag = MetadataBag::new();
    assert_eq!(bag.len(), 0);
    assert!(bag.keys().is_empty());
    assert!(bag.get("anything").is_none());
}

#[test]
fn insert_then_get_returns_all_values_in_order() {
    let mut bag = MetadataBag::new();
    bag.insert("k".to_string(), strings(&["one", "two", "three"]));
    assert_eq!(bag.get("k"), Some(&strings(&["one", "two", "three"])));
    assert_eq!(bag.len(), 1);
}

#[test]
fn insert_replaces_the_values_of_a_key() {
    let mut bag = MetadataBag::new();
    bag.insert("k".to_string(), strings(&["old", "older"]));
    bag.insert("other".to_string(), strings(&["x"]));
    bag.insert("k".to_string(), strings(&["new"]));
    assert_eq!(bag.len(), 2);
    assert_eq!(bag.get("k"), Some(&strings(&["new"])));
    assert_eq!(bag.get("other"), Some(&strings(&["x"])));
    assert_eq!(bag.keys(), vec!["k", "other"]);
}

#[test]
fn a_key_may_have_no_values() {
    let mut bag = MetadataBag::new();
    bag.insert("empty".to_string(), Vec::new());
    assert_eq!(bag.get("empty"), Some(&Vec::new()));
    assert_eq!(bag.keys(), vec!["empty"]);
}

#[test]
fn keys_are_case_sensitive() {
    let mut bag = MetadataBag::new();
    bag.insert("Key".to_string(), strings(&["upper"]));
    bag.insert("key".to_string(), strings(&["lower"]));
    assert_eq!(bag.len(), 2);
    assert_eq!(bag.get("Key"), Some(&strings(&["upper"])));
    assert_eq!(bag.get("key"), Some(&strings(&["lower"])));
    assert!(bag.get("KEY").is_none());
}

#[test]
fn rows_are_read_by_index_in_the_order_of_first_insertion() {
    let mut bag = MetadataBag::new();
    bag.insert("b".to_string(), strings(&["2"]));
    bag.insert("a".to_string(), strings(&["1", "1b"]));
    bag.insert("b".to_string(), strings(&["3"]));
    assert_eq!(bag.len(), 2);
    assert_eq!(bag.key_at(0), "b");
    assert_eq!(bag.values_at(0), &strings(&["3"]));
    assert_eq!(bag.key_at(1), "a");
    assert_eq!(bag.values_at(1), &strings(&["1", "1b"]));
}

#[test]
fn same_as_ignores_the_order_of_keys() {
    let mut left = MetadataBag::new();
    left.insert("a".to_string(), strings(&["1", "2"]));
    left.insert("b".to_string(), strings(&[]));
    let mut right = MetadataBag::new();
    right.insert("b".to_string(), strings(&[]));
    right.insert("a".to_string(), strings(&["1", "2"]));
    assert!(left.same_as(&right));
    assert!(right.same_as(&left));
    assert!(left.same_as(&left.clone()));
    assert!(MetadataBag::new().same_as(&MetadataBag::new()));
}

#[test]
fn same_as_tells_bags_apart() {
    let mut left = MetadataBag::new();
    left.insert("a".to_string(), strings(&["1", "2"]));
    let mut other_values = MetadataBag::new();
    other_values.insert("a".to_string(), strings(&["2", "1"]));
    let mut fewer_values = MetadataBag::new();
    fewer_values.insert("a".to_string(), strings(&["1"]));
    let mut more_keys = left.clone();
    more_keys.insert("b".to_string(), strings(&["x"]));
    let mut other_key = MetadataBag::new();
    other_key.insert("A".to_string(), strings(&["1", "2"]));
    assert!(!left.same_as(&other_values));
    assert!(!left.same_as(&fewer_values));
    assert!(!left.same_as(&more_keys));
    assert!(!more_keys.same_as(&left));
    assert!(!left.same_as(&other_key));
    assert!(!left.same_as(&MetadataBag::new()));
    assert!(!MetadataBag::new().same_as(&left));
}

#[test]
fn a_clone_has_the_same_rows_and_is_independent() {
    let mut bag = MetadataBag::new();
    bag.insert("b".to_string(), strings(&["2", "3"]));
    bag.insert("a".to_string(), strings(&["1"]));
    let mut copy = bag.clone();
    assert_eq!(copy.keys(), vec!["b", "a"]);
    assert_eq!(copy.get("b"), Some(&strings(&["2", "3"])));
    assert_eq!(copy.get("a"), Some(&strings(&["1"])));
    copy.insert("a".to_string(), strings(&["changed"]));
    assert_eq!(bag.get("a"), Some(&strings(&["1"])));
    assert!(!copy.same_as(&bag));
}
