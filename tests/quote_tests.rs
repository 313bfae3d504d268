use toml_path::{is_quoted_string, strip_quotes, strip_quotes_internal};

#[test]
fn test_strip_quotes_internal() {
    assert_eq!(strip_quotes_internal("\"hello\""), "hello");
    assert_eq!(strip_quotes_internal("'world'"), "world");
    assert_eq!(strip_quotes_internal("no_quotes"), "no_quotes");
}

#[test]
fn mod_test_strip_quotes() {
    assert_eq!(strip_quotes("\"hello\""), "hello");
    assert_eq!(strip_quotes("hello"), "hello");
    assert_eq!(strip_quotes("\"\""), "");
}

#[test]
fn value_parser_test_strip_quotes() {
    assert_eq!(strip_quotes("\"hello\""), "hello");
    assert_eq!(strip_quotes("hello"), "hello");
    assert_eq!(strip_quotes("\"\""), "");
    assert_eq!(strip_quotes("'hello'"), "'hello'");
}

#[test]
fn test_is_quoted_string() {
    assert!(is_quoted_string("\"hello\""));
    assert!(!is_quoted_string("hello"));
    assert!(!is_quoted_string("'hello'"));
    assert!(is_quoted_string("\"\""));
}

#[test]
fn strip_quotes_needs_a_matching_pair() {
    assert_eq!(strip_quotes("\""), "\"");
    assert_eq!(strip_quotes("\"abc"), "\"abc");
    assert_eq!(strip_quotes_internal("'abc\""), "'abc\"");
    assert_eq!(strip_quotes_internal("'"), "'");
    assert_eq!(strip_quotes_internal("\"\"x\"\""), "\"x\"");
    assert_eq!(strip_quotes_internal("\"é\""), "é");
}
