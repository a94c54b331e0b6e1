use cdumay_context::Context;
use cdumay_context::ContextDump;
use cdumay_context::Contextualize;
use cdumay_context::DynamicValue;
use cdumay_context::ErrorKind;
use cdumay_context::UnExpectedError;

#[test]
fn test_extend_overlap_scenario() {
    // extend {"key1":"value1","key2":42} then {"key1":"new","key3":true}
    // leaves exactly {key1:"new", key2:42, key3:true}.
    let mut ctx = Context::new();
    let mut first = Vec::new();
    first.push(("key1".to_string(), DynamicValue::Str("value1".to_string())));
    first.push(("key2".to_string(), DynamicValue::I64(42)));
    ctx.extend(first);
    let mut second = Vec::new();
    second.push(("key1".to_string(), DynamicValue::Str("new".to_string())));
    second.push(("key3".to_string(), DynamicValue::Bool(true)));
    ctx.extend(second);

    let inner = ctx.inner();
    assert_eq!(inner.len(), 3);
    assert_eq!(inner[0], ("key1".to_string(), DynamicValue::Str("new".to_string())));
    assert_eq!(inner[1], ("key2".to_string(), DynamicValue::I64(42)));
    assert_eq!(inner[2], ("key3".to_string(), DynamicValue::Bool(true)));
}

#[test]
fn test_absent_key() {
    let mut ctx = Context::new();
    assert!(ctx.get("anything").is_none());
    ctx.insert("present".to_string(), DynamicValue::Null);
    assert!(ctx.get("absent").is_none());
    assert_eq!(ctx.get("present").unwrap(), &DynamicValue::Null);
}

#[test]
fn test_json_scenario_roundtrip() {
    // insert {"name": "Alice", "age": 30}, serialize pretty, parse back.
    let mut ctx = Context::new();
    ctx.insert("name".to_string(), DynamicValue::Str("Alice".to_string()));
    ctx.insert("age".to_string(), DynamicValue::I64(30));

    let pretty = ctx.to_json(true).unwrap();
    let back = Context::from_json(&pretty).unwrap();
    assert_eq!(back.get("name").unwrap(), &DynamicValue::Str("Alice".to_string()));
    // The integer keeps its value 30; a non-negative one comes back unsigned.
    assert_eq!(back.get("age").unwrap(), &DynamicValue::U64(30));

    // A normalized context round-trips to itself.
    let again = Context::from_json(&back.to_json(true).unwrap()).unwrap();
    assert_eq!(again.inner(), back.inner());
}

#[test]
fn test_toml_normalizes_unsigned() {
    // TOML integers are signed: an unsigned value in range keeps its
    // numeric value and comes back signed.
    let mut ctx = Context::new();
    ctx.insert("n".to_string(), DynamicValue::U64(5));
    let text = ctx.to_toml(false).unwrap();
    let back = Context::from_toml(&text).unwrap();
    assert_eq!(back.get("n").unwrap(), &DynamicValue::I64(5));
}

#[test]
fn test_pretty_vs_compact() {
    let mut ctx = Context::new();
    ctx.insert("a".to_string(), DynamicValue::Str("line".to_string()));
    ctx.insert("b".to_string(), DynamicValue::U64(1));

    let compact = ctx.to_json(false).unwrap();
    assert!(!compact.contains("\n"));
    let pretty = ctx.to_json(true).unwrap();
    assert!(pretty.contains("\n"));

    let mut tctx = Context::new();
    tctx.insert("a".to_string(), DynamicValue::I64(1));
    let tpretty = tctx.to_toml(true).unwrap();
    assert!(tpretty.contains("\n"));
}

#[test]
fn test_malformed_inputs_are_tagged() {
    let jerr = Context::from_json("invalid json").unwrap_err();
    assert_eq!(jerr.kind(), ErrorKind::Json);
    assert_eq!(jerr.message(), "Failed to load context");

    let terr = Context::from_toml("invalid = toml").unwrap_err();
    assert_eq!(terr.kind(), ErrorKind::Toml);
    assert_eq!(terr.message(), "Failed to load context");

    let yerr = Context::from_yaml("invalid: - yaml: ]").unwrap_err();
    assert_eq!(yerr.kind(), ErrorKind::Yaml);
    assert_eq!(yerr.message(), "Failed to load context");
}

#[test]
fn test_parse_failure_keeps_origin() {
    let err = Context::from_json("{ \"key\": \"value\" ").unwrap_err();
    let details = err.details();
    assert_eq!(details.len(), 1);
    assert_eq!(details[0].0, "origin");
    match &details[0].1 {
        DynamicValue::Str(origin) => assert!(origin.contains("EOF")),
        other => panic!("unexpected origin value: {:?}", other),
    }
}

#[test]
fn test_float_roundtrips() {
    let mut ctx = Context::new();
    ctx.insert("pi".to_string(), DynamicValue::Float(format!("{:?}", 3.14)));
    ctx.insert("one".to_string(), DynamicValue::Float(format!("{:?}", 1.0)));

    let json = ctx.to_json(false).unwrap();
    assert_eq!(Context::from_json(&json).unwrap().inner(), ctx.inner());

    let toml_text = ctx.to_toml(false).unwrap();
    assert_eq!(Context::from_toml(&toml_text).unwrap().inner(), ctx.inner());

    let yaml = ctx.to_yaml().unwrap();
    assert_eq!(Context::from_yaml(&yaml).unwrap().inner(), ctx.inner());
}

#[test]
fn test_negative_integer_roundtrips() {
    let mut ctx = Context::new();
    ctx.insert("neg".to_string(), DynamicValue::I64(-42));

    let json = ctx.to_json(false).unwrap();
    assert_eq!(Context::from_json(&json).unwrap().inner(), ctx.inner());
    let toml_text = ctx.to_toml(false).unwrap();
    assert_eq!(Context::from_toml(&toml_text).unwrap().inner(), ctx.inner());
    let yaml = ctx.to_yaml().unwrap();
    assert_eq!(Context::from_yaml(&yaml).unwrap().inner(), ctx.inner());
}

#[test]
fn test_nested_roundtrip_json_yaml() {
    let mut ctx = Context::new();
    let list = DynamicValue::List(vec![
        DynamicValue::U64(1),
        DynamicValue::Str("two".to_string()),
        DynamicValue::Null,
    ]);
    let object = DynamicValue::Object(vec![
        ("x".to_string(), DynamicValue::Bool(false)),
        ("y".to_string(), DynamicValue::U64(7)),
    ]);
    ctx.insert("list".to_string(), list);
    ctx.insert("object".to_string(), object);

    let json = ctx.to_json(true).unwrap();
    assert_eq!(Context::from_json(&json).unwrap().inner(), ctx.inner());
    let yaml = ctx.to_yaml().unwrap();
    assert_eq!(Context::from_yaml(&yaml).unwrap().inner(), ctx.inner());
}

#[test]
fn test_nested_roundtrip_toml() {
    let mut ctx = Context::new();
    let table = DynamicValue::Object(vec![
        ("inner_key".to_string(), DynamicValue::Str("inner".to_string())),
        ("inner_num".to_string(), DynamicValue::I64(5)),
    ]);
    ctx.insert("scalar".to_string(), DynamicValue::Str("top".to_string()));
    ctx.insert("table".to_string(), table);

    let toml_text = ctx.to_toml(false).unwrap();
    assert_eq!(Context::from_toml(&toml_text).unwrap().inner(), ctx.inner());
}

#[test]
fn test_empty_roundtrips() {
    let ctx = Context::new();
    let json = ctx.to_json(false).unwrap();
    assert_eq!(json, "{}");
    assert!(Context::from_json(&json).unwrap().inner().is_empty());

    let toml_text = ctx.to_toml(false).unwrap();
    assert!(Context::from_toml(&toml_text).unwrap().inner().is_empty());

    let yaml = ctx.to_yaml().unwrap();
    assert!(Context::from_yaml(&yaml).unwrap().inner().is_empty());
}

#[test]
fn test_toml_rejects_null() {
    let mut ctx = Context::new();
    ctx.insert("nothing".to_string(), DynamicValue::Null);
    let err = ctx.to_toml(false).unwrap_err();
    assert_eq!(err.kind(), ErrorKind::Toml);
    assert_eq!(err.message(), "Failed to dump context");
}

#[test]
fn test_inner_is_sorted() {
    let mut ctx = Context::new();
    ctx.insert("banana".to_string(), DynamicValue::U64(2));
    ctx.insert("apple".to_string(), DynamicValue::U64(1));
    ctx.insert("cherry".to_string(), DynamicValue::U64(3));

    let inner = ctx.inner();
    assert_eq!(inner[0].0, "apple");
    assert_eq!(inner[1].0, "banana");
    assert_eq!(inner[2].0, "cherry");
}

#[test]
fn test_extend_duplicate_incoming() {
    // Within one extend the entries are read left to right: the later wins.
    let mut ctx = Context::new();
    let mut data = Vec::new();
    data.push(("k".to_string(), DynamicValue::U64(1)));
    data.push(("k".to_string(), DynamicValue::U64(2)));
    ctx.extend(data);
    assert_eq!(ctx.inner().len(), 1);
    assert_eq!(ctx.get("k").unwrap(), &DynamicValue::U64(2));
}

#[test]
fn test_unicode_key_order() {
    let mut ctx = Context::new();
    ctx.insert("z".to_string(), DynamicValue::U64(1));
    ctx.insert("é".to_string(), DynamicValue::U64(2));
    let inner = ctx.inner();
    assert_eq!(inner[0].0, "z");
    assert_eq!(inner[1].0, "é");

    let back = Context::from_json(&ctx.to_json(false).unwrap()).unwrap();
    assert_eq!(back.inner(), ctx.inner());
}

#[test]
fn test_key_cmp_order() {
    assert_eq!(cdumay_context::key_cmp("a", "b"), -1);
    assert_eq!(cdumay_context::key_cmp("b", "a"), 1);
    assert_eq!(cdumay_context::key_cmp("same", "same"), 0);
    // A proper prefix sorts first.
    assert_eq!(cdumay_context::key_cmp("ab", "abc"), -1);
    assert_eq!(cdumay_context::key_cmp("abc", "ab"), 1);
    assert_eq!(cdumay_context::key_cmp("", "a"), -1);
}

#[test]
fn test_dump_matches_inner() {
    let mut ctx = Context::new();
    ctx.insert("k".to_string(), DynamicValue::Str("v".to_string()));
    assert_eq!(ctx.dump(), ctx.inner());
}

#[test]
fn test_clean_checks() {
    // A canonical float text is clean; a non-canonical or non-float text is not.
    assert!(DynamicValue::Float("3.14".to_string()).is_json_clean());
    assert!(DynamicValue::Float("1.0".to_string()).is_json_clean());
    assert!(!DynamicValue::Float("3.140".to_string()).is_json_clean());
    assert!(!DynamicValue::Float("abc".to_string()).is_json_clean());
    assert!(!DynamicValue::Float("42".to_string()).is_json_clean());

    // A float text must have the shape of a number: a JSON value whose
    // text merely contains an `e` or a dot is no float.
    assert!(!DynamicValue::Float("true".to_string()).is_json_clean());
    assert!(!DynamicValue::Float("false".to_string()).is_json_clean());
    assert!(!DynamicValue::Float("\"a.b\"".to_string()).is_json_clean());
    assert!(!DynamicValue::Float("[1.5]".to_string()).is_json_clean());
    assert!(!DynamicValue::Float("true".to_string()).is_toml_clean());

    // Every integer survives the JSON round trip, up to its signedness tag.
    assert!(DynamicValue::I64(42).is_json_clean());
    assert!(DynamicValue::I64(-42).is_json_clean());
    assert!(DynamicValue::U64(42).is_json_clean());

    // TOML has no null, and its integers are signed: an unsigned value
    // survives only while a signed integer can hold it.
    assert!(!DynamicValue::Null.is_toml_clean());
    assert!(DynamicValue::U64(42).is_toml_clean());
    assert!(!DynamicValue::U64(u64::MAX).is_toml_clean());
    assert!(DynamicValue::I64(42).is_toml_clean());

    // Nested object keys must be sorted and distinct.
    let unsorted = DynamicValue::Object(vec![
        ("b".to_string(), DynamicValue::U64(1)),
        ("a".to_string(), DynamicValue::U64(2)),
    ]);
    assert!(!unsorted.is_json_clean());
    let sorted = DynamicValue::Object(vec![
        ("a".to_string(), DynamicValue::U64(2)),
        ("b".to_string(), DynamicValue::U64(1)),
    ]);
    assert!(sorted.is_json_clean());
}

#[test]
fn test_context_clean_checks() {
    let mut ctx = Context::new();
    ctx.insert("n".to_string(), DynamicValue::U64(1));
    assert!(ctx.is_json_clean());
    assert!(ctx.is_toml_clean());

    let mut nctx = Context::new();
    nctx.insert("nothing".to_string(), DynamicValue::Null);
    assert!(nctx.is_json_clean());
    assert!(!nctx.is_toml_clean());

    let mut bctx = Context::new();
    bctx.insert("big".to_string(), DynamicValue::U64(u64::MAX));
    assert!(bctx.is_json_clean());
    assert!(!bctx.is_toml_clean());

    assert!(Context::new().is_json_clean());
    assert!(Context::new().is_toml_clean());
}

#[test]
fn test_round_trip_helpers() {
    let mut ctx = Context::new();
    ctx.insert("greeting".to_string(), DynamicValue::Str("hello".to_string()));
    ctx.insert("count".to_string(), DynamicValue::U64(3));
    ctx.insert("ratio".to_string(), DynamicValue::Float("0.5".to_string()));

    let back = cdumay_context::json_round_trip(&ctx, true).unwrap();
    assert_eq!(back.inner(), ctx.inner());
    let back = cdumay_context::yaml_round_trip(&ctx).unwrap();
    assert_eq!(back.inner(), ctx.inner());

    let mut tctx = Context::new();
    tctx.insert("greeting".to_string(), DynamicValue::Str("hello".to_string()));
    tctx.insert("count".to_string(), DynamicValue::I64(3));
    let back = cdumay_context::toml_round_trip(&tctx, false).unwrap();
    assert_eq!(back.inner(), tctx.inner());
}

#[test]
fn test_error_registry() {
    assert_eq!(ErrorKind::Generic.name(), "GenericContextError");
    assert_eq!(ErrorKind::Generic.code(), 500);
    assert_eq!(ErrorKind::Generic.description(), "Generic context error");
    assert_eq!(ErrorKind::Json.code(), 400);
    assert_eq!(ErrorKind::Toml.code(), 400);
    assert_eq!(ErrorKind::Yaml.code(), 400);

    // A fresh generic error carries its kind's description as its message.
    let e = UnExpectedError::new();
    assert_eq!(e.kind(), ErrorKind::Generic);
    assert_eq!(e.code(), 500);
    assert_eq!(e.message(), "Generic context error");
}
