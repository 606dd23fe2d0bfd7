use qbench::json::{get_as_u64, get_field, get_string_field, get_u64_field, render_json_value, JsonValue};

fn obj(fields: Vec<(&str, JsonValue)>) -> JsonValue {
    JsonValue::Object(fields.into_iter().map(|(k, v)| (k.to_string(), v)).collect())
}

#[test]
fn test_render_scalars() {
    assert_eq!(render_json_value(&JsonValue::Null), "null");
    assert_eq!(render_json_value(&JsonValue::Bool(true)), "true");
    assert_eq!(render_json_value(&JsonValue::Bool(false)), "false");
    assert_eq!(render_json_value(&JsonValue::Number("12.5".to_string())), "12.5");
    assert_eq!(render_json_value(&JsonValue::Text("hi".to_string())), "\"hi\"");
}

#[test]
fn test_render_escapes_strings() {
    let v = JsonValue::Text("a\"b\\c\nd\te\r\u{8}\u{c}\u{1}".to_string());
    assert_eq!(
        render_json_value(&v),
        "\"a\\\"b\\\\c\\nd\\te\\r\\b\\f\\u0001\""
    );
}

#[test]
fn test_render_compound() {
    let v = obj(vec![
        ("xs", JsonValue::Array(vec![JsonValue::Number("1".to_string()), JsonValue::Null])),
        ("s", JsonValue::Text("v".to_string())),
    ]);
    assert_eq!(render_json_value(&v), r#"{"xs":[1,null],"s":"v"}"#);
    assert_eq!(render_json_value(&JsonValue::Array(vec![])), "[]");
    assert_eq!(render_json_value(&obj(vec![])), "{}");
}

#[test]
fn test_field_lookup() {
    let v = obj(vec![
        ("n", JsonValue::Number("123".to_string())),
        ("s", JsonValue::Text("x".to_string())),
    ]);
    assert!(get_field(&v, "n").is_some());
    assert!(get_field(&v, "missing").is_none());
    assert_eq!(get_string_field(&v, "s").map(|s| s.as_str()), Some("x"));
    assert!(get_string_field(&v, "n").is_none());
    assert_eq!(get_u64_field(&v, "n"), Some(123));
    assert_eq!(get_u64_field(&v, "s"), None);
}

#[test]
fn test_number_as_u64_rules() {
    assert_eq!(get_as_u64(&JsonValue::Number("0".to_string())), Some(0));
    assert_eq!(
        get_as_u64(&JsonValue::Number("18446744073709551615".to_string())),
        Some(u64::MAX)
    );
    assert_eq!(get_as_u64(&JsonValue::Number("18446744073709551616".to_string())), None);
    assert_eq!(get_as_u64(&JsonValue::Number("-5".to_string())), None);
    assert_eq!(get_as_u64(&JsonValue::Number("1.0".to_string())), None);
    assert_eq!(get_as_u64(&JsonValue::Number("1e3".to_string())), None);
    assert_eq!(get_as_u64(&JsonValue::Text("7".to_string())), None);
}
