use json_parser::{Input, JsonMap, JsonValue};

fn object(members: Vec<(&str, JsonValue)>) -> JsonValue {
    let mut map = JsonMap::new();
    for (key, value) in members {
        map.insert(key.to_string(), value);
    }
    JsonValue::JsonObject(map)
}

#[test]
fn test_full() {
    let mut input: Input<char> = Input::new(
        "{\"key1\": {\"key1\": \"value\", \"key2\": [1, 2, 3]}, \"key2\": [5, 4, 3, 2, {\"key1\": 0}]}"
            .chars()
            .collect::<Vec<char>>(),
    );

    let json = input.next().unwrap();

    let json_true = object(vec![
        (
            "key1",
            object(vec![
                ("key1", JsonValue::JsonString("value".to_string())),
                (
                    "key2",
                    JsonValue::JsonArray(vec![
                        JsonValue::JsonNumber(1),
                        JsonValue::JsonNumber(2),
                        JsonValue::JsonNumber(3),
                    ]),
                ),
            ]),
        ),
        (
            "key2",
            JsonValue::JsonArray(vec![
                JsonValue::JsonNumber(5),
                JsonValue::JsonNumber(4),
                JsonValue::JsonNumber(3),
                JsonValue::JsonNumber(2),
                object(vec![("key1", JsonValue::JsonNumber(0))]),
            ]),
        ),
    ]);

    assert_eq!(json, json_true);
}

#[test]
fn full_document_is_one_value_and_leaves_nothing() {
    let text =
        "{\"key1\": {\"key1\": \"value\", \"key2\": [1, 2, 3]}, \"key2\": [5, 4, 3, 2, {\"key1\": 0}]}";
    let mut input = Input::new(text.chars().collect::<Vec<char>>());
    let values = input.parse_all();
    assert_eq!(values.len(), 1);
    assert_eq!(input.location(), text.chars().count());
    assert_eq!(input.location(), input.len());
    match &values[0] {
        JsonValue::JsonObject(outer) => {
            assert_eq!(outer.len(), 2);
            match outer.get(&"key1".to_string()) {
                Some(JsonValue::JsonObject(inner)) => {
                    assert_eq!(inner.len(), 2);
                    assert_eq!(
                        inner.get(&"key1".to_string()),
                        Some(&JsonValue::JsonString("value".to_string()))
                    );
                }
                other => panic!("key1 holds {:?}", other),
            }
            match outer.get(&"key2".to_string()) {
                Some(JsonValue::JsonArray(items)) => {
                    assert_eq!(items.len(), 5);
                    assert_eq!(items[0], JsonValue::JsonNumber(5));
                    assert_eq!(items[4], object(vec![("key1", JsonValue::JsonNumber(0))]));
                }
                other => panic!("key2 holds {:?}", other),
            }
        }
        other => panic!("read {:?}", other),
    }
}
