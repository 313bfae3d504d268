use toml_path::{ExtractConfig, ExtractionResult, GetConfig, GetResult, SetConfig};

#[test]
fn get_config_test_get_config_default() {
    let config = GetConfig::default();
    assert_eq!(config.file_path, "Cargo.toml");
    assert_eq!(config.field_path, "package.name");
    assert!(config.output_format.is_none());
    assert!(!config.strip_quotes);
}

#[test]
fn mod_test_get_config_default() {
    let config = GetConfig::default();
    assert_eq!(config.file_path, "Cargo.toml");
    assert_eq!(config.field_path, "package.name");
    assert!(config.output_format.is_none());
    assert!(!config.strip_quotes);
}

#[test]
fn mod_test_set_config_default() {
    let config = SetConfig::default();
    assert_eq!(config.file_path, "Cargo.toml");
    assert_eq!(config.field_path, "package.name");
    assert_eq!(config.value, "");
    assert!(config.value_type.is_none());
    assert!(!config.create_missing);
}

#[test]
fn set_config_test_set_config_default() {
    let config = SetConfig::default();
    assert_eq!(config.file_path, "Cargo.toml");
    assert_eq!(config.field_path, "package.name");
    assert_eq!(config.value, "");
    assert!(config.value_type.is_none());
    assert!(!config.create_missing);
}

#[test]
fn test_set_config_builder() {
    let config = SetConfig::new(
        "test.toml".to_string(),
        "package.name".to_string(),
        "new-name".to_string(),
    );

    assert_eq!(config.file_path, "test.toml");
    assert_eq!(config.field_path, "package.name");
    assert_eq!(config.value, "new-name");
    assert!(config.value_type.is_none());
    assert!(!config.create_missing);

    let config = config.with_type("string").with_create_missing(true);

    assert_eq!(config.value_type, Some("string".to_string()));
    assert!(config.create_missing);
}

#[test]
fn mod_test_get_result() {
    let mut result = GetResult::new("test.toml".to_string());
    assert!(result.is_empty());

    result.add_field("package.name".to_string(), "test".to_string());
    assert_eq!(result.len(), 1);
    assert_eq!(result.get("package.name"), Some(&"test".to_string()));
}

#[test]
fn get_config_test_get_result() {
    let mut result = GetResult::new("test.toml".to_string());

    assert!(result.is_empty());
    assert_eq!(result.len(), 0);
    assert_eq!(result.source_file, "test.toml");

    result.add_field("package.name".to_string(), "test".to_string());
    assert!(!result.is_empty());
    assert_eq!(result.len(), 1);
    assert_eq!(result.get("package.name"), Some(&"test".to_string()));

    result.add_field("package.version".to_string(), "0.1.0".to_string());
    assert_eq!(result.len(), 2);

    let mut fields: Vec<_> = result.iter().iter().collect();
    fields.sort_by_key(|(k, _)| k.clone());
    assert_eq!(fields.len(), 2);

    let json = result.to_json().unwrap();
    assert!(json.contains("test"));
    let json_pretty = result.to_json_pretty().unwrap();
    assert!(json_pretty.contains("test"));
}

#[test]
fn json_of_recorded_fields() {
    let mut result = GetResult::new("test.toml".to_string());
    result.add_field("package.name".to_string(), "test".to_string());
    result.add_field("package.version".to_string(), "0.1.0".to_string());
    assert_eq!(
        result.to_json().unwrap(),
        r#"{"package.name":"test","package.version":"0.1.0"}"#
    );
    assert_eq!(
        result.to_json_pretty().unwrap(),
        "{\n  \"package.name\": \"test\",\n  \"package.version\": \"0.1.0\"\n}"
    );

    let mut extracted = ExtractionResult::new("a.toml".to_string());
    assert_eq!(extracted.to_json().unwrap(), "{}");
    extracted.add_field("k".to_string(), "say \"hi\"".to_string());
    assert_eq!(extracted.to_json().unwrap(), r#"{"k":"say \"hi\""}"#);
    assert_eq!(extracted.to_json_pretty().unwrap(), "{\n  \"k\": \"say \\\"hi\\\"\"\n}");
}

#[test]
fn get_result_add_field_replaces() {
    let mut result = GetResult::new("a.toml".to_string());
    result.add_field("x".to_string(), "1".to_string());
    result.add_field("y".to_string(), "2".to_string());
    result.add_field("x".to_string(), "3".to_string());
    assert_eq!(result.len(), 2);
    assert_eq!(result.get("x"), Some(&"3".to_string()));
    assert_eq!(result.get("z"), None);
    let keys: Vec<&String> = result.iter().iter().map(|(k, _)| k).collect();
    assert_eq!(keys, vec!["x", "y"]);
}

#[test]
fn extraction_result_records_fields() {
    let mut result = ExtractionResult::new("Cargo.toml".to_string());
    assert!(result.is_empty());
    result.add_field("package.name".to_string(), "demo".to_string());
    assert!(!result.is_empty());
    assert_eq!(result.get("package.name"), Some(&"demo".to_string()));
    assert_eq!(result.source_file, "Cargo.toml");
}

#[test]
fn extract_config_default() {
    let config = ExtractConfig::default();
    assert_eq!(config.file_path, "Cargo.toml");
    assert_eq!(config.field_path, "package.name");
    assert!(config.output_format.is_none());
    assert!(!config.strip_quotes);
}
