use json_parser::chars;
use json_parser::Input;

fn cursor(text: &str) -> Input<char> {
    Input::new(text.chars().collect::<Vec<char>>())
}

#[test]
fn new_cursor_stands_at_the_start() {
    let input = cursor("abc");
    assert_eq!(input.location(), 0);
    assert_eq!(input.len(), 3);
    let empty = cursor("");
    assert_eq!(empty.location(), 0);
    assert_eq!(empty.len(), 0);
}

#[test]
fn new_cursor_over_other_items() {
    let input: Input<u8> = Input::new(vec![1, 2, 3, 4]);
    assert_eq!(input.location(), 0);
    assert_eq!(input.len(), 4);
}

#[test]
fn parse_char_reads_the_expected_character() {
    let mut input = cursor("ab");
    assert!(input.parse_char('a'));
    assert_eq!(input.location(), 1);
    assert!(input.parse_char('b'));
    assert_eq!(input.location(), 2);
}

#[test]
fn parse_char_leaves_another_character() {
    let mut input = cursor("ab");
    assert!(!input.parse_char('b'));
    assert_eq!(input.location(), 0);
    assert!(!input.parse_char('A'));
    assert_eq!(input.location(), 0);
}

#[test]
fn parse_char_fails_at_the_end() {
    let mut input = cursor("a");
    assert!(input.parse_char('a'));
    assert!(!input.parse_char('a'));
    assert_eq!(input.location(), 1);
    let mut empty = cursor("");
    assert!(!empty.parse_char('a'));
    assert_eq!(empty.location(), 0);
}

#[test]
fn parse_str_reads_the_whole_literal() {
    let mut input = cursor("nullx");
    assert!(input.parse_str("null"));
    assert_eq!(input.location(), 4);
    assert!(input.parse_str("x"));
    assert_eq!(input.location(), 5);
}

#[test]
fn parse_str_reads_nothing_of_a_partial_match() {
    let mut input = cursor("nulx");
    assert!(!input.parse_str("null"));
    assert_eq!(input.location(), 0);
    assert!(input.parse_str("nul"));
    assert_eq!(input.location(), 3);
}

#[test]
fn parse_str_fails_where_the_input_is_too_short() {
    let mut input = cursor("nul");
    assert!(!input.parse_str("null"));
    assert_eq!(input.location(), 0);
    let mut at_end = cursor("a");
    assert!(at_end.parse_char('a'));
    assert!(!at_end.parse_str("a"));
    assert_eq!(at_end.location(), 1);
}

#[test]
fn parse_str_is_case_sensitive() {
    let mut input = cursor("Null");
    assert!(!input.parse_str("null"));
    assert_eq!(input.location(), 0);
}

#[test]
fn parse_str_of_nothing_matches_anywhere() {
    let mut input = cursor("a");
    assert!(input.parse_str(""));
    assert_eq!(input.location(), 0);
    assert!(input.parse_char('a'));
    assert!(input.parse_str(""));
    assert_eq!(input.location(), 1);
}

#[test]
fn parse_str_counts_characters_not_bytes() {
    let mut input = cursor("héllo!");
    assert!(input.parse_str("héllo"));
    assert_eq!(input.location(), 5);
    assert!(input.parse_char('!'));
}

#[test]
fn parse_while_reads_the_longest_run() {
    let mut input = cursor("123abc");
    assert_eq!(input.parse_while(|c| c.is_ascii_digit()), Some("123".to_string()));
    assert_eq!(input.location(), 3);
    assert_eq!(input.parse_while(|c| c.is_ascii_alphabetic()), Some("abc".to_string()));
    assert_eq!(input.location(), 6);
}

#[test]
fn parse_while_refuses_an_empty_run() {
    let mut input = cursor("abc");
    assert_eq!(input.parse_while(|c| c.is_ascii_digit()), None);
    assert_eq!(input.location(), 0);
}

#[test]
fn parse_while_reads_nothing_at_the_end() {
    let mut input = cursor("1");
    assert_eq!(input.parse_while(|c| c.is_ascii_digit()), Some("1".to_string()));
    assert_eq!(input.parse_while(|c| c.is_ascii_digit()), None);
    assert_eq!(input.location(), 1);
    let mut empty = cursor("");
    assert_eq!(empty.parse_while(|_| true), None);
    assert_eq!(empty.location(), 0);
}

#[test]
fn parse_while_runs_to_the_end_of_the_input() {
    let mut input = cursor("x42");
    assert!(input.parse_char('x'));
    assert_eq!(input.parse_while(chars::digit), Some("42".to_string()));
    assert_eq!(input.location(), 3);
}

#[test]
fn parse_while_keeps_characters_beyond_ascii() {
    let mut input = cursor("añb;");
    assert_eq!(input.parse_while(|c| c != ';'), Some("añb".to_string()));
    assert_eq!(input.location(), 3);
}

#[test]
fn parse_whitespace_reads_every_kind_of_whitespace() {
    let mut input = cursor(" \t\n\u{000C}\rx");
    input.parse_whitespace();
    assert_eq!(input.location(), 5);
    assert!(input.parse_char('x'));
}

#[test]
fn parse_whitespace_may_read_nothing() {
    let mut input = cursor("x ");
    input.parse_whitespace();
    assert_eq!(input.location(), 0);
    let mut empty = cursor("");
    empty.parse_whitespace();
    assert_eq!(empty.location(), 0);
}

#[test]
fn parse_whitespace_stops_at_other_blank_characters() {
    let mut input = cursor(" \u{000B} ");
    input.parse_whitespace();
    assert_eq!(input.location(), 1);
    let mut wide = cursor("\u{00A0}");
    wide.parse_whitespace();
    assert_eq!(wide.location(), 0);
}

#[test]
fn primitives_never_move_back() {
    let mut input = cursor("a 1");
    let mut last = input.location();
    assert!(input.parse_char('a'));
    assert!(input.location() >= last);
    last = input.location();
    assert!(!input.parse_str("zz"));
    assert!(input.location() >= last);
    input.parse_whitespace();
    assert!(input.location() >= last);
    last = input.location();
    assert_eq!(input.parse_while(chars::key_char), Some("1".to_string()));
    assert!(input.location() >= last);
    assert!(input.location() <= input.len());
}

#[test]
fn character_classes_agree_with_the_standard_ones() {
    let mut samples: Vec<char> = (0u8..=127u8).map(|b| b as char).collect();
    samples.extend(['\u{0080}', 'é', '٣', '\u{2003}', '中', '\u{10FFFF}']);
    for c in samples {
        assert_eq!(chars::digit(c), c.is_ascii_digit(), "digit {:?}", c);
        assert_eq!(chars::whitespace(c), c.is_ascii_whitespace(), "whitespace {:?}", c);
        assert_eq!(chars::key_char(c), c.is_ascii_alphanumeric(), "key {:?}", c);
        assert_eq!(chars::string_char(c), c.is_ascii() && c != '"', "string {:?}", c);
    }
}
