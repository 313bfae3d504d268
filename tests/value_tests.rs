use toml_path::{auto_parse_value, parse_value_with_type, TomlExtractError, Value};

fn float_bits(text: &str) -> Option<u64> {
    text.parse::<f64>().ok().map(f64::to_bits)
}

fn parse(text: &str, hint: Option<&str>) -> Result<Value, TomlExtractError> {
    parse_value_with_type(text, hint, float_bits(text))
}

fn auto(text: &str) -> Result<Value, TomlExtractError> {
    auto_parse_value(text, float_bits(text))
}

#[test]
fn utils_test_parse_value_with_type() {
    assert!(matches!(parse("42", Some("integer")).unwrap(), Value::Integer(42)));
    assert!(matches!(parse("3.14", Some("float")).unwrap(), Value::Float(b) if b == 3.14f64.to_bits()));
    assert!(matches!(parse("true", Some("boolean")).unwrap(), Value::Boolean(true)));
    assert!(matches!(parse("text", Some("string")).unwrap(), Value::String(s) if s == "text"));
}

#[test]
fn test_parse_value_auto() {
    assert!(matches!(parse("100", None).unwrap(), Value::Integer(100)));
    assert!(matches!(parse("false", None).unwrap(), Value::Boolean(false)));
    assert!(matches!(parse("hello", None).unwrap(), Value::String(s) if s == "hello"));
}

#[test]
fn value_parser_test_parse_value_with_type() {
    let value = parse("hello", Some("string")).unwrap();
    assert_eq!(value, Value::String("hello".to_string()));

    let value = parse("42", Some("integer")).unwrap();
    assert_eq!(value, Value::Integer(42));

    let value = parse("3.14", Some("float")).unwrap();
    assert_eq!(value, Value::Float(3.14f64.to_bits()));

    let value = parse("true", Some("boolean")).unwrap();
    assert_eq!(value, Value::Boolean(true));
    let value = parse("false", Some("boolean")).unwrap();
    assert_eq!(value, Value::Boolean(false));

    assert!(parse("maybe", Some("boolean")).is_err());

    let value = parse("", Some("null")).unwrap();
    assert_eq!(value, Value::String("".to_string()));

    // An unknown hint is treated like `null`.
    let value = parse("test", Some("unknown")).unwrap();
    assert_eq!(value, Value::String("".to_string()));
}

#[test]
fn test_auto_parse_value() {
    let value = auto("123").unwrap();
    assert_eq!(value, Value::Integer(123));

    let value = auto("123.45").unwrap();
    assert_eq!(value, Value::Float(123.45f64.to_bits()));

    let value = auto("true").unwrap();
    assert_eq!(value, Value::Boolean(true));
    let value = auto("false").unwrap();
    assert_eq!(value, Value::Boolean(false));

    let value = auto("hello world").unwrap();
    assert_eq!(value, Value::String("hello world".to_string()));
}

#[test]
fn test_value_parser() {
    assert!(matches!(parse("42", None).unwrap(), Value::Integer(_)));
    assert!(matches!(parse("3.14", None).unwrap(), Value::Float(_)));
    assert!(matches!(parse("true", None).unwrap(), Value::Boolean(_)));
    assert!(matches!(parse("hello", None).unwrap(), Value::String(_)));
}

#[test]
fn type_priority() {
    assert_eq!(auto("42").unwrap(), Value::Integer(42));
    assert_eq!(auto("3.14").unwrap(), Value::Float(3.14f64.to_bits()));
    assert_eq!(auto("true").unwrap(), Value::Boolean(true));
    assert_eq!(auto("v1.2").unwrap(), Value::String("v1.2".to_string()));
}

#[test]
fn auto_typing_edge_cases() {
    assert_eq!(auto("TRUE").unwrap(), Value::Boolean(true));
    assert_eq!(auto("False").unwrap(), Value::Boolean(false));
    assert_eq!(auto("-0").unwrap(), Value::Integer(0));
    assert_eq!(auto("+17").unwrap(), Value::Integer(17));
    assert_eq!(auto("-9223372036854775808").unwrap(), Value::Integer(i64::MIN));
    assert_eq!(auto("9223372036854775807").unwrap(), Value::Integer(i64::MAX));
    assert_eq!(
        auto("9223372036854775808").unwrap(),
        Value::Float(9223372036854775808f64.to_bits())
    );
    assert_eq!(auto("1e3").unwrap(), Value::Float(1000f64.to_bits()));
    assert_eq!(auto("").unwrap(), Value::String(String::new()));
    assert_eq!(auto("-").unwrap(), Value::String("-".to_string()));
    assert_eq!(auto("tru").unwrap(), Value::String("tru".to_string()));
}

#[test]
fn explicit_hints_reject_bad_text() {
    assert_eq!(
        parse("4x", Some("integer")),
        Err(TomlExtractError::InvalidValueType("4x".to_string()))
    );
    assert_eq!(
        parse("9223372036854775808", Some("integer")),
        Err(TomlExtractError::InvalidValueType(
            "9223372036854775808".to_string()
        ))
    );
    assert_eq!(
        parse("abc", Some("float")),
        Err(TomlExtractError::InvalidValueType("abc".to_string()))
    );
    assert_eq!(
        parse("yes", Some("boolean")),
        Err(TomlExtractError::InvalidValueType("yes".to_string()))
    );
    assert_eq!(parse("TrUe", Some("boolean")).unwrap(), Value::Boolean(true));
    assert_eq!(parse("42", Some("string")).unwrap(), Value::String("42".to_string()));
    assert_eq!(parse("7", Some("float")).unwrap(), Value::Float(7f64.to_bits()));
}

#[test]
fn round_trip_of_printed_scalars() {
    for i in [0i64, 7, -7, 1234567890, i64::MIN, i64::MAX] {
        assert_eq!(auto(&i.to_string()).unwrap(), Value::Integer(i));
    }
    for b in [true, false] {
        assert_eq!(auto(&b.to_string()).unwrap(), Value::Boolean(b));
    }
    for f in [1.5f64, -0.25, 1e100] {
        assert_eq!(auto(&format!("{:?}", f)).unwrap(), Value::Float(f.to_bits()));
    }
}
