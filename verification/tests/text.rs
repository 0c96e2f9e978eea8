use mossy::internal_error;
use mossy::text::{dec_string, second_field, str_lex_le};

#[test]
fn second_field_of_bearer_header() {
    assert_eq!(second_field("Bearer tok-123"), Some("tok-123".to_string()));
}

#[test]
fn second_field_stops_at_next_space() {
    assert_eq!(second_field("Bearer tok extra"), Some("tok".to_string()));
}

#[test]
fn second_field_missing_without_space() {
    assert_eq!(second_field("token"), None);
    assert_eq!(second_field(""), None);
}

#[test]
fn second_field_between_doubled_spaces_is_empty() {
    assert_eq!(second_field("a  b"), Some("".to_string()));
    assert_eq!(second_field("x "), Some("".to_string()));
}

#[test]
fn lexicographic_order_on_text() {
    assert!(str_lex_le("apple", "banana"));
    assert!(!str_lex_le("banana", "apple"));
    assert!(str_lex_le("ab", "abc"));
    assert!(!str_lex_le("abc", "ab"));
    assert!(str_lex_le("", "a"));
    assert!(str_lex_le("same", "same"));
    assert!(str_lex_le("abc", "abd"));
}

#[test]
fn decimal_rendering() {
    assert_eq!(dec_string(0), "0");
    assert_eq!(dec_string(7), "7");
    assert_eq!(dec_string(10), "10");
    assert_eq!(dec_string(255), "255");
    assert_eq!(dec_string(1234), "1234");
}

#[test]
fn internal_error_message() {
    assert_eq!(internal_error(), "The server encountered an internal error.");
}
