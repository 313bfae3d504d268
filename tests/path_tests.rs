use toml_path::{
    is_array_access, last_part, parent_path, parse_array_access, parse_path, split_field_path,
    split_path, PathSegment, TomlExtractError,
};

#[test]
fn test_is_array_access() {
    assert!(is_array_access("array[0]"));
    assert!(is_array_access("array[123]"));
    assert!(!is_array_access("array"));
    assert!(!is_array_access("array["));
    assert!(!is_array_access("array]"));
}

#[test]
fn test_parse_array_access() {
    let (name, index) = parse_array_access("array[0]").unwrap();
    assert_eq!(name, "array");
    assert_eq!(index, 0);

    let (name, index) = parse_array_access("test[42]").unwrap();
    assert_eq!(name, "test");
    assert_eq!(index, 42);

    assert!(parse_array_access("array").is_err());
    assert!(parse_array_access("[0]").is_err());
    assert!(parse_array_access("array[abc]").is_err());
    assert!(parse_array_access("array[]").is_err());
}

#[test]
fn test_split_path() {
    assert_eq!(split_path("package.name"), vec!["package", "name"]);
    assert_eq!(
        split_path("package.authors[0]"),
        vec!["package", "authors[0]"]
    );
    assert_eq!(split_path(""), vec![""]);
}

#[test]
fn test_parent_path() {
    assert_eq!(parent_path("package.name"), Some("package".to_string()));
    assert_eq!(
        parent_path("package.authors[0]"),
        Some("package".to_string())
    );
    assert_eq!(parent_path("name"), None);
    assert_eq!(parent_path(""), None);
}

#[test]
fn test_last_part() {
    assert_eq!(last_part("package.name"), Some("name".to_string()));
    assert_eq!(last_part("package.authors[0]"), Some("authors[0]".to_string()));
    assert_eq!(last_part(""), Some("".to_string()));
}

#[test]
fn test_path_parser() {
    assert!(is_array_access("array[0]"));
    assert!(!is_array_access("array"));

    let (name, index) = parse_array_access("array[0]").unwrap();
    assert_eq!(name, "array");
    assert_eq!(index, 0);
}

#[test]
fn test_split_field_path() {
    assert_eq!(
        split_field_path("package.name").unwrap(),
        vec!["package".to_string(), "name".to_string()]
    );

    assert_eq!(
        split_field_path("dependencies.serde.features[0]").unwrap(),
        vec![
            "dependencies".to_string(),
            "serde".to_string(),
            "features[0]".to_string()
        ]
    );
}

#[test]
fn split_field_path_keeps_dots_inside_brackets() {
    assert_eq!(
        split_field_path("a[1.5].b").unwrap(),
        vec!["a[1.5]".to_string(), "b".to_string()]
    );
}

#[test]
fn split_field_path_rejects_malformed_paths() {
    for bad in ["", ".a", "a.", "a..b", "a[0", "a]0", "a[0]]"] {
        assert_eq!(
            split_field_path(bad),
            Err(TomlExtractError::InvalidFieldPath(bad.to_string())),
            "path {:?}",
            bad
        );
    }
}

#[test]
fn parse_path_reads_segments() {
    assert_eq!(
        parse_path("package.authors[1]").unwrap(),
        vec![
            PathSegment::Field("package".to_string()),
            PathSegment::IndexedField("authors".to_string(), 1),
        ]
    );
    assert_eq!(
        parse_path("a[+7]").unwrap(),
        vec![PathSegment::IndexedField("a".to_string(), 7)]
    );
}

#[test]
fn parse_path_rejects_bad_index() {
    assert_eq!(
        parse_path("a.b[x]"),
        Err(TomlExtractError::InvalidArrayIndex("x".to_string()))
    );
    assert_eq!(
        parse_path("a[-1]"),
        Err(TomlExtractError::InvalidArrayIndex("-1".to_string()))
    );
    assert_eq!(
        parse_path("a[99999999999999999999999]"),
        Err(TomlExtractError::InvalidArrayIndex(
            "99999999999999999999999".to_string()
        ))
    );
}

#[test]
fn parse_array_access_reports_errors() {
    assert_eq!(
        parse_array_access("array[abc]"),
        Err(TomlExtractError::InvalidArrayIndex("abc".to_string()))
    );
    assert_eq!(
        parse_array_access("[0]"),
        Err(TomlExtractError::InvalidFieldPath("[0]".to_string()))
    );
}

#[test]
fn split_path_unicode() {
    assert_eq!(split_path("ä.ö.."), vec!["ä", "ö", "", ""]);
    assert_eq!(parent_path("ä.ö.ü"), Some("ä.ö".to_string()));
    assert_eq!(last_part("ä.ö.ü"), Some("ü".to_string()));
}
