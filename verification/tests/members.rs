use json_parser::{JsonMap, JsonValue};

fn number(n: usize) -> JsonValue {
    JsonValue::JsonNumber(n)
}

#[test]
fn a_new_map_is_empty() {
    let map = JsonMap::new();
    assert_eq!(map.len(), 0);
    assert_eq!(map.get(&"a".to_string()), None);
    assert!(map.entries().is_empty());
}

#[test]
fn insert_adds_a_member() {
    let mut map = JsonMap::new();
    map.insert("a".to_string(), number(1));
    map.insert("b".to_string(), number(2));
    assert_eq!(map.len(), 2);
    assert_eq!(map.get(&"a".to_string()), Some(&number(1)));
    assert_eq!(map.get(&"b".to_string()), Some(&number(2)));
    assert_eq!(map.get(&"c".to_string()), None);
    assert_eq!(map.get(&"A".to_string()), None);
}

#[test]
fn insert_replaces_the_value_of_a_key() {
    let mut map = JsonMap::new();
    map.insert("a".to_string(), number(1));
    map.insert("b".to_string(), number(2));
    map.insert("a".to_string(), JsonValue::JsonNull);
    assert_eq!(map.len(), 2);
    assert_eq!(map.get(&"a".to_string()), Some(&JsonValue::JsonNull));
    assert_eq!(map.get(&"b".to_string()), Some(&number(2)));
}

#[test]
fn inserting_twice_is_inserting_the_second() {
    let mut twice = JsonMap::new();
    twice.insert("k".to_string(), number(1));
    twice.insert("k".to_string(), number(2));
    let mut once = JsonMap::new();
    once.insert("k".to_string(), number(2));
    assert_eq!(twice, once);
    assert!(twice.same(&once));
}

#[test]
fn entries_hold_each_key_once() {
    let mut map = JsonMap::new();
    map.insert("a".to_string(), number(1));
    map.insert("b".to_string(), number(2));
    map.insert("a".to_string(), number(3));
    let mut keys: Vec<String> = map.entries().iter().map(|entry| entry.0.clone()).collect();
    keys.sort();
    assert_eq!(keys, vec!["a".to_string(), "b".to_string()]);
    for (key, value) in map.entries() {
        assert_eq!(map.get(key), Some(value));
    }
}

#[test]
fn maps_are_equal_whatever_the_order_of_insertion() {
    let mut ab = JsonMap::new();
    ab.insert("a".to_string(), number(1));
    ab.insert("b".to_string(), number(2));
    let mut ba = JsonMap::new();
    ba.insert("b".to_string(), number(2));
    ba.insert("a".to_string(), number(1));
    assert_eq!(ab, ba);
    assert!(ab.same(&ba));
    assert!(ba.same(&ab));
}

#[test]
fn maps_differ_by_keys_values_and_size() {
    let mut a1 = JsonMap::new();
    a1.insert("a".to_string(), number(1));
    let mut a2 = JsonMap::new();
    a2.insert("a".to_string(), number(2));
    let mut b1 = JsonMap::new();
    b1.insert("b".to_string(), number(1));
    let mut a1b1 = JsonMap::new();
    a1b1.insert("a".to_string(), number(1));
    a1b1.insert("b".to_string(), number(1));
    assert_ne!(a1, a2);
    assert_ne!(a1, b1);
    assert_ne!(a1, a1b1);
    assert_ne!(a1b1, a1);
    assert_ne!(a1, JsonMap::new());
    assert!(!a1.same(&a2));
}

#[test]
fn values_of_different_kinds_differ() {
    let values = vec![
        JsonValue::JsonNull,
        JsonValue::JsonBool(false),
        JsonValue::JsonBool(true),
        number(0),
        number(1),
        JsonValue::JsonString("0".to_string()),
        JsonValue::JsonString("null".to_string()),
        JsonValue::JsonArray(vec![]),
        JsonValue::JsonArray(vec![JsonValue::JsonNull]),
        JsonValue::JsonArray(vec![number(0)]),
        JsonValue::JsonObject(JsonMap::new()),
    ];
    for (i, a) in values.iter().enumerate() {
        for (j, b) in values.iter().enumerate() {
            assert_eq!(a == b, i == j, "{:?} and {:?}", a, b);
            assert_eq!(a.same(b), i == j, "{:?} and {:?}", a, b);
        }
    }
}

#[test]
fn arrays_are_equal_element_by_element() {
    let a = JsonValue::JsonArray(vec![number(1), number(2)]);
    let b = JsonValue::JsonArray(vec![number(1), number(2)]);
    let swapped = JsonValue::JsonArray(vec![number(2), number(1)]);
    let longer = JsonValue::JsonArray(vec![number(1), number(2), number(3)]);
    assert_eq!(a, b);
    assert_ne!(a, swapped);
    assert_ne!(a, longer);
    assert_ne!(longer, a);
}
