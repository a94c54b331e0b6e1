use cdumay_context::convert_failure;
use cdumay_context::ErrorKind;
use cdumay_context::UnExpectedError;

#[test]
fn test_generic_error() {
    let error_msg = "test error message";
    let error = UnExpectedError::new().with_message(error_msg.to_string());

    // Test Debug implementation
    assert!(format!("{:?}", error).contains(error_msg));
}

#[test]
fn test_json_error_conversion() {
    // Test JSON parse error
    let invalid_json = r#"{ "key": "value" "#; // Missing closing brace
    let parse_error = serde_json::from_str::<serde_json::Value>(invalid_json).unwrap_err();
    let error = convert_failure(ErrorKind::Json, parse_error.to_string(), None, Vec::new());
    assert!(!error.message().is_empty());
    assert!(error.message().contains("EOF"));
}

#[test]
fn test_toml_error_conversion() {
    // Test TOML parse error
    let invalid_toml = r#"[table]
        key = "value"
        key = "duplicate""#;
    let parse_error = toml::from_str::<toml::Value>(invalid_toml).unwrap_err();
    let error = convert_failure(ErrorKind::Toml, parse_error.to_string(), None, Vec::new());
    assert!(!error.message().is_empty());
    assert!(error.message().contains("duplicate"));
}

#[test]
fn test_yaml_error_conversion() {
    // Test YAML parse error
    let invalid_yaml = "key: : value"; // Invalid YAML syntax
    let parse_error = serde_yaml::from_str::<serde_yaml::Value>(invalid_yaml).unwrap_err();
    let error = convert_failure(ErrorKind::Yaml, parse_error.to_string(), None, Vec::new());
    assert!(!error.message().is_empty());
    assert!(error.message().contains("mapping values are not allowed"));
}

#[test]
fn test_error_trait_implementation() {
    let _ = UnExpectedError::new().with_message("test error".to_string());

    // Test error messages
    let generic = UnExpectedError::new().with_message("generic error".to_string());
    assert!(format!("{:?}", generic).contains("generic error"));
}
