use json_parser::parser::decimal;
use json_parser::{Input, JsonMap, JsonValue};

fn cursor(text: &str) -> Input<char> {
    Input::new(text.chars().collect::<Vec<char>>())
}

fn read(text: &str) -> Option<JsonValue> {
    cursor(text).next()
}

fn number(n: usize) -> JsonValue {
    JsonValue::JsonNumber(n)
}

fn string(s: &str) -> JsonValue {
    JsonValue::JsonString(s.to_string())
}

fn array(items: Vec<JsonValue>) -> JsonValue {
    JsonValue::JsonArray(items)
}

fn object(members: Vec<(&str, JsonValue)>) -> JsonValue {
    let mut map = JsonMap::new();
    for (key, value) in members {
        map.insert(key.to_string(), value);
    }
    JsonValue::JsonObject(map)
}

#[test]
fn reads_null() {
    let mut input = cursor("null");
    assert_eq!(input.next(), Some(JsonValue::JsonNull));
    assert_eq!(input.location(), 4);
}

#[test]
fn reads_the_booleans() {
    let mut input = cursor("true");
    assert_eq!(input.next(), Some(JsonValue::JsonBool(true)));
    assert_eq!(input.location(), 4);
    let mut input = cursor("false");
    assert_eq!(input.next(), Some(JsonValue::JsonBool(false)));
    assert_eq!(input.location(), 5);
}

#[test]
fn literals_are_case_sensitive_and_whole() {
    assert_eq!(read("Null"), None);
    assert_eq!(read("TRUE"), None);
    assert_eq!(read("nul"), None);
    assert_eq!(read("fals"), None);
}

#[test]
fn a_literal_ends_where_it_is_spelled_out() {
    let mut input = cursor("nullx");
    assert_eq!(input.next(), Some(JsonValue::JsonNull));
    assert_eq!(input.location(), 4);
}

#[test]
fn reads_numbers() {
    assert_eq!(read("0"), Some(number(0)));
    assert_eq!(read("7"), Some(number(7)));
    assert_eq!(read("123"), Some(number(123)));
    assert_eq!(read("9876543210"), Some(number(9876543210)));
    assert_eq!(read("007"), Some(number(7)));
}

#[test]
fn a_number_is_the_longest_run_of_digits() {
    let mut input = cursor("12a");
    assert_eq!(input.next(), Some(number(12)));
    assert_eq!(input.location(), 2);
    let mut input = cursor("3.5");
    assert_eq!(input.next(), Some(number(3)));
    assert_eq!(input.location(), 1);
}

#[test]
fn numbers_have_no_sign() {
    let mut input = cursor("-1");
    assert_eq!(input.next(), None);
    assert_eq!(input.location(), 0);
    assert_eq!(read("+1"), None);
}

#[test]
fn the_largest_number_is_read() {
    let text = usize::MAX.to_string();
    let mut input = cursor(&text);
    assert_eq!(input.next(), Some(number(usize::MAX)));
    assert_eq!(input.location(), text.len());
}

#[test]
fn a_number_beyond_the_word_is_no_value() {
    let mut text = usize::MAX.to_string();
    text.push('0');
    let mut input = cursor(&text);
    assert_eq!(input.next(), None);
    assert_eq!(input.location(), text.len());

    let one_more = format!("{}", usize::MAX as u128 + 1);
    let mut input = cursor(&one_more);
    assert_eq!(input.next(), None);
    assert_eq!(input.location(), one_more.len());

    assert_eq!(read("[1,99999999999999999999999999999999999999999]"), None);
}

#[test]
fn decimal_gives_the_value_of_the_digits() {
    assert_eq!(decimal("0"), Some(0));
    assert_eq!(decimal("123"), Some(123));
    assert_eq!(decimal("0042"), Some(42));
    assert_eq!(decimal(""), Some(0));
    assert_eq!(decimal(&usize::MAX.to_string()), Some(usize::MAX));
}

#[test]
fn decimal_refuses_what_is_no_number_or_too_large() {
    assert_eq!(decimal("1a"), None);
    assert_eq!(decimal("-1"), None);
    assert_eq!(decimal(" 1"), None);
    assert_eq!(decimal("١٢"), None);
    let mut text = usize::MAX.to_string();
    text.push('1');
    assert_eq!(decimal(&text), None);
    assert_eq!(decimal(&format!("{}", usize::MAX as u128 + 1)), None);
}

#[test]
fn reads_strings() {
    let mut input = cursor("\"value\"");
    assert_eq!(input.next(), Some(string("value")));
    assert_eq!(input.location(), 7);
    assert_eq!(read("\"a b, c: [1] {2}\""), Some(string("a b, c: [1] {2}")));
    assert_eq!(read("\"\\n\""), Some(string("\\n")));
}

#[test]
fn a_string_keeps_its_characters_undecoded() {
    assert_eq!(read("\"a\\\""), Some(string("a\\")));
    let mut input = cursor("\"a\\\"b\"");
    assert_eq!(input.next(), Some(string("a\\")));
    assert_eq!(input.location(), 4);
}

#[test]
fn an_empty_string_is_no_value() {
    let mut input = cursor("\"\"");
    assert_eq!(input.next(), None);
    assert_eq!(input.location(), 1);
}

#[test]
fn an_unterminated_string_is_no_value() {
    let mut input = cursor("\"abc");
    assert_eq!(input.next(), None);
    assert_eq!(input.location(), 4);
    let mut input = cursor("\"");
    assert_eq!(input.next(), None);
    assert_eq!(input.location(), 1);
}

#[test]
fn a_string_holds_ascii_only() {
    let mut input = cursor("\"caf\u{00E9}\"");
    assert_eq!(input.next(), None);
    assert_eq!(input.location(), 4);
}

#[test]
fn reads_empty_containers() {
    let mut input = cursor("[]");
    assert_eq!(input.next(), Some(array(vec![])));
    assert_eq!(input.location(), 2);
    let mut input = cursor("{}");
    assert_eq!(input.next(), Some(object(vec![])));
    assert_eq!(input.location(), 2);
    assert_eq!(read("[ \n]"), Some(array(vec![])));
    assert_eq!(read("{\t }"), Some(object(vec![])));
}

#[test]
fn an_empty_object_has_no_members() {
    match read("{}") {
        Some(JsonValue::JsonObject(members)) => {
            assert_eq!(members.len(), 0);
            assert!(members.entries().is_empty());
        }
        other => panic!("read {:?}", other),
    }
    match read("[]") {
        Some(JsonValue::JsonArray(items)) => assert!(items.is_empty()),
        other => panic!("read {:?}", other),
    }
}

#[test]
fn reads_arrays_in_order() {
    assert_eq!(read("[1,2,3]"), Some(array(vec![number(1), number(2), number(3)])));
    assert_eq!(
        read("[null,true,\"x\",[],{}]"),
        Some(array(vec![
            JsonValue::JsonNull,
            JsonValue::JsonBool(true),
            string("x"),
            array(vec![]),
            object(vec![]),
        ]))
    );
    assert_ne!(read("[1,2]"), read("[2,1]"));
}

#[test]
fn reads_nested_arrays() {
    let mut input = cursor("[[1],[[2]],[]]");
    assert_eq!(
        input.next(),
        Some(array(vec![
            array(vec![number(1)]),
            array(vec![array(vec![number(2)])]),
            array(vec![]),
        ]))
    );
    assert_eq!(input.location(), 14);
}

#[test]
fn reads_objects() {
    assert_eq!(read("{\"a\":1}"), Some(object(vec![("a", number(1))])));
    assert_eq!(
        read("{\"a\":1,\"B2\":[true],\"c\":{\"d\":\"e\"}}"),
        Some(object(vec![
            ("a", number(1)),
            ("B2", array(vec![JsonValue::JsonBool(true)])),
            ("c", object(vec![("d", string("e"))])),
        ]))
    );
}

#[test]
fn the_order_of_members_carries_no_meaning() {
    assert_eq!(read("{\"a\":1,\"b\":2}"), read("{\"b\":2,\"a\":1}"));
    assert_ne!(read("{\"a\":1,\"b\":2}"), read("{\"a\":2,\"b\":1}"));
    assert_ne!(read("{\"a\":1,\"b\":2}"), read("{\"a\":1}"));
    assert_ne!(read("{\"a\":1}"), read("{\"a\":1,\"b\":2}"));
    assert_ne!(read("{\"a\":1}"), read("{\"b\":1}"));
}

#[test]
fn a_repeated_key_keeps_its_last_value() {
    let value = read("{\"k\":1,\"k\":2}");
    assert_eq!(value, Some(object(vec![("k", number(2))])));
    match value {
        Some(JsonValue::JsonObject(members)) => {
            assert_eq!(members.len(), 1);
            assert_eq!(members.get(&"k".to_string()), Some(&number(2)));
            assert_eq!(members.entries().len(), 1);
        }
        other => panic!("read {:?}", other),
    }
    assert_eq!(
        read("{\"k\":1,\"j\":5,\"k\":[2],\"k\":3}"),
        Some(object(vec![("j", number(5)), ("k", number(3))]))
    );
}

#[test]
fn whitespace_between_tokens_changes_nothing() {
    assert_eq!(read("{ \"a\" : 1 }"), read("{\"a\":1}"));
    assert_eq!(read("{ \"a\" : 1 }"), Some(object(vec![("a", number(1))])));
    assert_eq!(read("[ 1 , 2 ,\n\t3 ]"), read("[1,2,3]"));
    assert_eq!(
        read("{\r\n  \"a\" :\t[ 1 ,  2 ] ,\u{000C} \"b\":{ \"c\" : null }\n}"),
        read("{\"a\":[1,2],\"b\":{\"c\":null}}")
    );
    let spaced = "[ 1 , 2 ]";
    let mut input = cursor(spaced);
    assert_eq!(input.next(), Some(array(vec![number(1), number(2)])));
    assert_eq!(input.location(), spaced.len());
}

#[test]
fn whitespace_inside_a_token_does_change_it() {
    assert_ne!(read("\" a\""), read("\"a\""));
    assert_eq!(read("[1 2]"), None);
    assert_eq!(read("[nu ll]"), None);
    assert_eq!(read("{\"a b\":1}"), None);
}

#[test]
fn a_value_does_not_begin_with_whitespace() {
    let mut input = cursor(" 1");
    assert_eq!(input.next(), None);
    assert_eq!(input.location(), 0);
}

#[test]
fn a_comma_before_the_closing_delimiter_is_read_over() {
    let mut input = cursor("[1,2,]");
    assert_eq!(input.next(), Some(array(vec![number(1), number(2)])));
    assert_eq!(input.location(), 6);
    assert_eq!(read("[1, ]"), Some(array(vec![number(1)])));
    assert_eq!(read("{\"a\":1,}"), Some(object(vec![("a", number(1))])));
}

#[test]
fn a_comma_needs_an_element_before_it() {
    assert_eq!(read("[,]"), None);
    assert_eq!(read("[,1]"), None);
    assert_eq!(read("[1,,2]"), None);
    assert_eq!(read("{,}"), None);
}

#[test]
fn an_unterminated_container_is_no_value() {
    let mut input = cursor("{\"a\":1");
    assert_eq!(input.next(), None);
    assert_eq!(input.location(), 6);
    assert_eq!(read("["), None);
    assert_eq!(read("[1,2"), None);
    assert_eq!(read("[1,"), None);
    assert_eq!(read("{"), None);
    assert_eq!(read("{\"a\""), None);
    assert_eq!(read("{\"a\":"), None);
    assert_eq!(read("[[1]"), None);
}

#[test]
fn a_failed_element_fails_its_container() {
    assert_eq!(read("[1,x]"), None);
    assert_eq!(read("[1,\"\"]"), None);
    assert_eq!(read("[[1,],[2 3]]"), None);
    assert_eq!(read("{\"a\":[1,x]}"), None);
    assert_eq!(read("{\"a\":}"), None);
}

#[test]
fn a_stray_character_after_an_element_fails_the_container() {
    let mut input = cursor("[1;2]");
    assert_eq!(input.next(), None);
    assert_eq!(input.location(), 2);
    assert_eq!(read("[1}"), None);
    assert_eq!(read("{\"a\":1]"), None);
}

#[test]
fn keys_are_letters_and_digits() {
    assert_eq!(read("{\"aZ09\":1}"), Some(object(vec![("aZ09", number(1))])));
    assert_eq!(read("{\"a_b\":1}"), None);
    assert_eq!(read("{\"a-b\":1}"), None);
    assert_eq!(read("{\"\":1}"), None);
    assert_eq!(read("{\"\u{00E9}\":1}"), None);
    assert_eq!(read("{a:1}"), None);
    assert_eq!(read("{1:1}"), None);
}

#[test]
fn strings_allow_what_keys_do_not() {
    assert_eq!(read("[\"a_b c\"]"), Some(array(vec![string("a_b c")])));
    assert_eq!(read("{\"k\":\"a_b c\"}"), Some(object(vec![("k", string("a_b c"))])));
}

#[test]
fn a_member_needs_its_colon() {
    let mut input = cursor("{\"a\" 1}");
    assert_eq!(input.next(), None);
    assert_eq!(input.location(), 5);
    assert_eq!(read("{\"a\"=1}"), None);
    assert_eq!(read("{\"a\"}"), None);
}

#[test]
fn a_rule_that_begins_is_not_taken_back() {
    let mut input = cursor("{\"abc");
    assert_eq!(input.next(), None);
    assert_eq!(input.location(), 5);
    let mut input = cursor("[\"\"]");
    assert_eq!(input.next(), None);
    assert_eq!(input.location(), 2);
}

#[test]
fn nothing_is_read_where_no_value_begins() {
    for text in ["", "x", "]", "}", ",", ":", " ", "-", "'a'"] {
        let mut input = cursor(text);
        assert_eq!(input.next(), None, "{:?}", text);
        assert_eq!(input.location(), 0, "{:?}", text);
    }
}

#[test]
fn reading_again_gives_an_equal_value() {
    let text = "{\"a\":[1,{\"b\":\"c\"},null],\"d\":true}";
    let first = read(text);
    let second = read(text);
    assert!(first.is_some());
    assert_eq!(first, second);
    match (first, second) {
        (Some(a), Some(b)) => {
            assert!(a.same(&b));
            assert!(b.same(&a));
        }
        _ => unreachable!(),
    }
}

#[test]
fn deep_nesting_is_read() {
    let depth = 200;
    let mut text = String::new();
    for _ in 0..depth {
        text.push('[');
    }
    for _ in 0..depth {
        text.push(']');
    }
    let mut input = cursor(&text);
    let mut value = input.next().expect("a nest of arrays");
    assert_eq!(input.location(), 2 * depth);
    let mut levels = 0;
    loop {
        match value {
            JsonValue::JsonArray(mut items) => {
                levels += 1;
                match items.pop() {
                    Some(inner) => {
                        assert!(items.is_empty());
                        value = inner;
                    }
                    None => break,
                }
            }
            other => panic!("read {:?}", other),
        }
    }
    assert_eq!(levels, depth);
}

#[test]
fn values_follow_each_other_without_a_gap() {
    let mut input = cursor("[1][2][3]");
    assert_eq!(
        input.parse_all(),
        vec![array(vec![number(1)]), array(vec![number(2)]), array(vec![number(3)])]
    );
    assert_eq!(input.location(), 9);

    let mut input = cursor("truefalsenull1\"a\"{}");
    assert_eq!(
        input.parse_all(),
        vec![
            JsonValue::JsonBool(true),
            JsonValue::JsonBool(false),
            JsonValue::JsonNull,
            number(1),
            string("a"),
            object(vec![]),
        ]
    );
    assert_eq!(input.location(), input.len());
}

#[test]
fn the_list_of_values_ends_at_the_first_failure() {
    let mut input = cursor("1 2 3");
    assert_eq!(input.parse_all(), vec![number(1)]);
    assert_eq!(input.location(), 1);

    let mut input = cursor("[1]x[2]");
    assert_eq!(input.parse_all(), vec![array(vec![number(1)])]);
    assert_eq!(input.location(), 3);

    let mut input = cursor("1[2,\"\"]3");
    assert_eq!(input.parse_all(), vec![number(1)]);
    assert_eq!(input.location(), 5);
}

#[test]
fn no_values_in_an_empty_input() {
    let mut input = cursor("");
    assert_eq!(input.parse_all(), vec![]);
    assert_eq!(input.location(), 0);
    let mut input = cursor("?");
    assert_eq!(input.parse_all(), vec![]);
    assert_eq!(input.location(), 0);
}

#[test]
fn next_can_be_called_value_by_value() {
    let mut input = cursor("1[2]3");
    assert_eq!(input.next(), Some(number(1)));
    assert_eq!(input.location(), 1);
    assert_eq!(input.next(), Some(array(vec![number(2)])));
    assert_eq!(input.location(), 4);
    assert_eq!(input.next(), Some(number(3)));
    assert_eq!(input.location(), 5);
    assert_eq!(input.next(), None);
    assert_eq!(input.location(), 5);
}

fn with_inserted(text: &str, at: usize, gap: &str) -> String {
    let chars: Vec<char> = text.chars().collect();
    let mut longer: String = chars[..at].iter().collect();
    longer.push_str(gap);
    longer.extend(chars[at..].iter());
    longer
}

#[test]
fn whitespace_may_stand_at_every_place_between_tokens() {
    let text = "[1,{\"a\":2}]";
    let places = [1, 2, 3, 4, 7, 8, 9, 10];
    let expected = array(vec![number(1), object(vec![("a", number(2))])]);
    assert_eq!(read(text), Some(array(vec![number(1), object(vec![("a", number(2))])])));
    for gap in ["", " ", "\n\t ", " \r\u{000C} \n"] {
        for at in places {
            let longer = with_inserted(text, at, gap);
            let mut input = cursor(&longer);
            assert_eq!(input.next().as_ref(), Some(&expected), "{:?}", longer);
            assert_eq!(input.location(), text.len() + gap.len(), "{:?}", longer);
        }
    }
}

#[test]
fn whitespace_may_stand_at_all_places_at_once() {
    let text = "[1,{\"a\":2}]";
    let places = [10, 9, 8, 7, 4, 3, 2, 1];
    let mut longer = text.to_string();
    for at in places {
        longer = with_inserted(&longer, at, " \n");
        assert_eq!(read(&longer), read(text), "{:?}", longer);
    }
    assert_eq!(longer, "[ \n1 \n, \n{ \n\"a\" \n: \n2 \n} \n]");
    let mut input = cursor(&longer);
    assert_eq!(
        input.next(),
        Some(array(vec![number(1), object(vec![("a", number(2))])]))
    );
    assert_eq!(input.location(), text.len() + 2 * places.len());
}

#[test]
fn whitespace_elsewhere_is_not_read_over() {
    let text = "[1,{\"a\":2}]";
    assert_eq!(read(&with_inserted(text, 0, " ")), None);
    assert_eq!(read(&with_inserted(text, 5, " ")), None);
    assert_eq!(read(&with_inserted(text, 6, " ")), None);
    assert_eq!(read(&with_inserted("[12]", 2, " ")), None);
    let trailing = with_inserted(text, 11, " ");
    let mut input = cursor(&trailing);
    assert!(input.next().is_some());
    assert_eq!(input.location(), 11);
}
