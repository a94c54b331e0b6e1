use cdumay_context::Context;
use cdumay_context::Contextualize;
use cdumay_context::DynamicValue;

#[test]
fn test_new() {
    let ctx = Context::new();
    assert!(ctx.inner().is_empty());
}

#[test]
fn test_insert_and_get() {
    let mut ctx = Context::new();

    // Test string value
    ctx.insert("string_key".to_string(), DynamicValue::Str("test value".to_string()));
    assert_eq!(ctx.get("string_key").unwrap(), &DynamicValue::Str("test value".to_string()));

    // Test integer value
    ctx.insert("int_key".to_string(), DynamicValue::I64(42));
    assert_eq!(ctx.get("int_key").unwrap(), &DynamicValue::I64(42));

    // Test float value, held as its canonical decimal text
    ctx.insert("float_key".to_string(), DynamicValue::Float(format!("{:?}", 3.14)));
    assert_eq!(ctx.get("float_key").unwrap(), &DynamicValue::Float("3.14".to_string()));

    // Test boolean value
    ctx.insert("bool_key".to_string(), DynamicValue::Bool(true));
    assert_eq!(ctx.get("bool_key").unwrap(), &DynamicValue::Bool(true));

    // Test non-existent key
    assert!(ctx.get("non_existent").is_none());

    // Test overwriting existing key
    ctx.insert("string_key".to_string(), DynamicValue::Str("new value".to_string()));
    assert_eq!(ctx.get("string_key").unwrap(), &DynamicValue::Str("new value".to_string()));
}

#[test]
fn test_extend() {
    let mut ctx = Context::new();
    let mut data = Vec::new();

    data.push(("key1".to_string(), DynamicValue::Str("value1".to_string())));
    data.push(("key2".to_string(), DynamicValue::I64(42)));

    ctx.extend(data);

    assert_eq!(ctx.get("key1").unwrap(), &DynamicValue::Str("value1".to_string()));
    assert_eq!(ctx.get("key2").unwrap(), &DynamicValue::I64(42));

    // Test extending with overlapping keys
    let mut new_data = Vec::new();
    new_data.push(("key1".to_string(), DynamicValue::Str("new value".to_string())));
    new_data.push(("key3".to_string(), DynamicValue::Bool(true)));

    ctx.extend(new_data);

    assert_eq!(ctx.get("key1").unwrap(), &DynamicValue::Str("new value".to_string()));
    assert_eq!(ctx.get("key2").unwrap(), &DynamicValue::I64(42));
    assert_eq!(ctx.get("key3").unwrap(), &DynamicValue::Bool(true));
}

#[test]
fn test_inner() {
    let mut ctx = Context::new();

    ctx.insert("key1".to_string(), DynamicValue::Str("value1".to_string()));
    ctx.insert("key2".to_string(), DynamicValue::I64(42));

    let inner_data = ctx.inner();
    assert_eq!(inner_data.len(), 2);
    assert_eq!(inner_data[0], ("key1".to_string(), DynamicValue::Str("value1".to_string())));
    assert_eq!(inner_data[1], ("key2".to_string(), DynamicValue::I64(42)));
}

#[test]
fn test_json_serialization() {
    let mut ctx = Context::new();
    ctx.insert("string".to_string(), DynamicValue::Str("test".to_string()));
    ctx.insert("number".to_string(), DynamicValue::U64(42));
    ctx.insert("boolean".to_string(), DynamicValue::Bool(true));

    // Test to_json
    let json = ctx.to_json(false).unwrap();
    let parsed: std::collections::BTreeMap<String, serde_json::Value> =
        serde_json::from_str(&json).unwrap();
    assert_eq!(
        parsed.get("string").unwrap().clone(),
        serde_json::Value::String("test".to_string())
    );
    assert_eq!(parsed["number"], serde_json::Value::from(42u64));
    assert_eq!(parsed["boolean"], serde_json::Value::Bool(true));

    // Test from_json
    let ctx2 = Context::from_json(&json).unwrap();
    assert_eq!(ctx.inner(), ctx2.inner());

    // Test pretty printing
    let pretty_json = ctx.to_json(true).unwrap();
    assert!(pretty_json.contains("\n"));

    // Test invalid JSON
    assert!(Context::from_json("invalid json").is_err());
}

#[test]
fn test_toml_serialization() {
    let mut ctx = Context::new();
    ctx.insert("string".to_string(), DynamicValue::Str("test".to_string()));
    ctx.insert("number".to_string(), DynamicValue::I64(42));
    ctx.insert("boolean".to_string(), DynamicValue::Bool(true));

    // Test to_toml
    let toml_str = ctx.to_toml(false).unwrap();
    let parsed: toml::Value = toml::from_str(&toml_str).unwrap();
    assert_eq!(parsed["string"].as_str().unwrap(), "test");
    assert_eq!(parsed["number"].as_integer().unwrap(), 42);
    assert_eq!(parsed["boolean"].as_bool().unwrap(), true);

    // Test from_toml
    let ctx2 = Context::from_toml(&toml_str).unwrap();
    assert_eq!(ctx.inner(), ctx2.inner());

    // Test pretty printing
    let pretty_toml = ctx.to_toml(true).unwrap();
    assert!(pretty_toml.contains("\n"));

    // Test invalid TOML
    assert!(Context::from_toml("invalid = toml").is_err());
}

#[test]
fn test_yaml_serialization() {
    let mut ctx = Context::new();
    ctx.insert("string".to_string(), DynamicValue::Str("test".to_string()));
    ctx.insert("number".to_string(), DynamicValue::U64(42));
    ctx.insert("boolean".to_string(), DynamicValue::Bool(true));

    // Test to_yaml
    let yaml = ctx.to_yaml().unwrap();
    let parsed: serde_yaml::Value = serde_yaml::from_str(&yaml).unwrap();
    assert_eq!(parsed["string"].as_str().unwrap(), "test");
    assert_eq!(parsed["number"].as_i64().unwrap(), 42);
    assert_eq!(parsed["boolean"].as_bool().unwrap(), true);

    // Test from_yaml
    let ctx2 = Context::from_yaml(&yaml).unwrap();
    assert_eq!(ctx.inner(), ctx2.inner());

    // Test invalid YAML
    assert!(Context::from_yaml("invalid: - yaml: ]").is_err());
}
