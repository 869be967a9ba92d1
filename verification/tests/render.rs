use json_shell::render::json_value_to_str;
use json_shell::JsonValue;

#[test]
fn render_null() {
    assert_eq!(json_value_to_str(&JsonValue::Null), "null");
}

#[test]
fn render_bools() {
    assert_eq!(json_value_to_str(&JsonValue::Bool(true)), "true");
    assert_eq!(json_value_to_str(&JsonValue::Bool(false)), "false");
}

#[test]
fn render_number_text() {
    assert_eq!(
        json_value_to_str(&JsonValue::Number("42".to_string())),
        "42"
    );
}

#[test]
fn render_string_is_double_quoted() {
    assert_eq!(
        json_value_to_str(&JsonValue::Text("admin".to_string())),
        "\"admin\""
    );
}

#[test]
fn render_string_does_not_escape_interior_quotes() {
    assert_eq!(
        json_value_to_str(&JsonValue::Text("a\"b".to_string())),
        "\"a\"b\""
    );
}

#[test]
fn render_empty_array() {
    assert_eq!(json_value_to_str(&JsonValue::Array(vec![])), "[]");
}

#[test]
fn render_empty_object() {
    assert_eq!(json_value_to_str(&JsonValue::Object(vec![])), "{}");
}

#[test]
fn render_array_joins_with_comma_space() {
    let v = JsonValue::Array(vec![
        JsonValue::Number("1".to_string()),
        JsonValue::Null,
        JsonValue::Bool(true),
    ]);
    assert_eq!(json_value_to_str(&v), "[1, null, true]");
}

#[test]
fn render_object_entries_in_insertion_order() {
    let v = JsonValue::Object(vec![
        ("a".to_string(), JsonValue::Number("1".to_string())),
        ("b".to_string(), JsonValue::Number("2".to_string())),
    ]);
    assert_eq!(json_value_to_str(&v), "{a: 1, b: 2}");
}

#[test]
fn render_nested_structures() {
    let v = JsonValue::Object(vec![(
        "a".to_string(),
        JsonValue::Array(vec![
            JsonValue::Number("1".to_string()),
            JsonValue::Object(vec![("b".to_string(), JsonValue::Null)]),
        ]),
    )]);
    assert_eq!(json_value_to_str(&v), "{a: [1, {b: null}]}");
}
