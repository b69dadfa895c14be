use ttrpc_trace::bag::MetadataBag;
use ttrpc_trace::wire::{from_wire, to_wire, KeyValue};

fn kv(key: &str, value: &str) -> KeyValue {
    KeyValue { key: key.to_string(), value: value.to_string() }
}

fn strings(items: &[&str]) -> Vec<String> {
    items.iter().map(|s| s.to_string()).collect()
}

#[test]
fn to_wire_of_an_empty_bag_is_empty() {
    assert_eq!(to_wire(&MetadataBag::new()), Vec::<KeyValue>::new());
}

#[test]
fn to_wire_emits_one_pair_per_key() {
    let mut bag = MetadataBag::new();
    bag.insert("traceparent".to_string(), strings(&["00-abc-def-01"]));
    bag.insert("tracestate".to_string(), strings(&["vendor=1"]));
    assert_eq!(
        to_wire(&bag),
        vec![kv("traceparent", "00-abc-def-01"), kv("tracestate", "vendor=1")]
    );
}

#[test]
fn to_wire_keeps_only_the_first_value() {
    let mut bag = MetadataBag::new();
    bag.insert("k".to_string(), strings(&["first", "second", "third"]));
    assert_eq!(to_wire(&bag), vec![kv("k", "first")]);
}

#[test]
fn to_wire_skips_a_key_without_values() {
    let mut bag = MetadataBag::new();
    bag.insert("a".to_string(), strings(&["1"]));
    bag.insert("none".to_string(), Vec::new());
    bag.insert("b".to_string(), strings(&["2"]));
    assert_eq!(to_wire(&bag), vec![kv("a", "1"), kv("b", "2")]);
}

#[test]
fn from_wire_of_an_empty_record_is_an_empty_bag() {
    let bag = from_wire(&Vec::new());
    assert_eq!(bag.len(), 0);
}

#[test]
fn from_wire_gives_each_key_a_single_value() {
    let bag = from_wire(&vec![kv("a", "1"), kv("b", "2")]);
    assert_eq!(bag.len(), 2);
    assert_eq!(bag.get("a"), Some(&strings(&["1"])));
    assert_eq!(bag.get("b"), Some(&strings(&["2"])));
}

#[test]
fn from_wire_lets_the_later_pair_win() {
    let bag = from_wire(&vec![kv("k", "early"), kv("other", "x"), kv("k", "late")]);
    assert_eq!(bag.len(), 2);
    assert_eq!(bag.get("k"), Some(&strings(&["late"])));
    assert_eq!(bag.get("other"), Some(&strings(&["x"])));
}

#[test]
fn round_trip_of_a_single_valued_bag_is_the_same_bag() {
    let mut bag = MetadataBag::new();
    bag.insert("traceparent".to_string(), strings(&["00-abc-def-01"]));
    bag.insert("tracestate".to_string(), strings(&[""]));
    bag.insert("x".to_string(), strings(&["y"]));
    let back = from_wire(&to_wire(&bag));
    assert!(back.same_as(&bag));
    assert_eq!(back.len(), bag.len());
    for key in bag.keys() {
        assert_eq!(back.get(key), bag.get(key));
    }
    assert_eq!(to_wire(&back), to_wire(&bag));
}

#[test]
fn round_trip_of_a_multi_valued_bag_collapses_to_first_values() {
    let mut bag = MetadataBag::new();
    bag.insert("many".to_string(), strings(&["1", "2"]));
    bag.insert("none".to_string(), Vec::new());
    bag.insert("one".to_string(), strings(&["x"]));
    let back = from_wire(&to_wire(&bag));
    assert!(!back.same_as(&bag));
    assert_eq!(back.len(), 2);
    assert_eq!(back.get("many"), Some(&strings(&["1"])));
    assert_eq!(back.get("one"), Some(&strings(&["x"])));
    assert!(back.get("none").is_none());
}

#[test]
fn round_trip_of_a_record_with_distinct_keys_is_the_same_record() {
    let record = vec![kv("b", "2"), kv("a", "1"), kv("c", "")];
    assert_eq!(to_wire(&from_wire(&record)), record);
}
