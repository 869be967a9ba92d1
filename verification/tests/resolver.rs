use json_shell::resolve::{resolve_path, ResolveError};
use json_shell::render::json_value_to_str;
use json_shell::JsonValue;

fn sample_doc() -> JsonValue {
    // {"owner":{"access":"admin"},"tags":[1,2]}
    JsonValue::Object(vec![
        (
            "owner".to_string(),
            JsonValue::Object(vec![(
                "access".to_string(),
                JsonValue::Text("admin".to_string()),
            )]),
        ),
        (
            "tags".to_string(),
            JsonValue::Array(vec![
                JsonValue::Number("1".to_string()),
                JsonValue::Number("2".to_string()),
            ]),
        ),
    ])
}

#[test]
fn resolve_nested_key_renders_expected_text() {
    let doc = sample_doc();
    let v = resolve_path(&doc, "owner.access").expect("path should resolve");
    assert_eq!(json_value_to_str(v), "\"admin\"");
}

#[test]
fn resolve_top_level_key() {
    let doc = sample_doc();
    let v = resolve_path(&doc, "owner").expect("path should resolve");
    assert_eq!(json_value_to_str(v), "{access: \"admin\"}");
}

#[test]
fn resolve_array_index_renders_one() {
    let doc = sample_doc();
    let v = resolve_path(&doc, "tags.0").expect("path should resolve");
    assert_eq!(json_value_to_str(v), "1");
}

#[test]
fn resolve_array_index_out_of_range_names_index() {
    let doc = sample_doc();
    match resolve_path(&doc, "tags.5") {
        Err(ResolveError::IndexNotFound(i)) => {
            assert_eq!(i, 5);
        }
        other => panic!("expected IndexNotFound, got {:?}", other.is_ok()),
    }
    let e = resolve_path(&doc, "tags.5").unwrap_err();
    assert_eq!(e.message(), "index 5 not found");
}

#[test]
fn resolve_array_non_integer_segment_names_segment() {
    let doc = sample_doc();
    match resolve_path(&doc, "tags.x") {
        Err(ResolveError::NotAnInteger(s)) => {
            assert_eq!(s, "x");
        }
        other => panic!("expected NotAnInteger, got {:?}", other.is_ok()),
    }
    let e = resolve_path(&doc, "tags.x").unwrap_err();
    assert_eq!(e.message(), "Expected x to be an integer");
}

#[test]
fn resolve_missing_key_names_key() {
    let doc = sample_doc();
    match resolve_path(&doc, "absent") {
        Err(ResolveError::KeyNotFound(k)) => {
            assert_eq!(k, "absent");
        }
        other => panic!("expected KeyNotFound, got {:?}", other.is_ok()),
    }
    let e = resolve_path(&doc, "absent").unwrap_err();
    assert_eq!(e.message(), "Key absent not found");
}

#[test]
fn resolve_missing_head_key_names_head() {
    let doc = sample_doc();
    match resolve_path(&doc, "absent.deeper") {
        Err(ResolveError::KeyNotFound(k)) => {
            assert_eq!(k, "absent");
        }
        other => panic!("expected KeyNotFound, got {:?}", other.is_ok()),
    }
}

#[test]
fn resolve_into_scalar_is_not_indexable() {
    let doc = sample_doc();
    match resolve_path(&doc, "owner.access.z") {
        Err(ResolveError::NotIndexable(p)) => {
            assert_eq!(p, "z");
        }
        other => panic!("expected NotIndexable, got {:?}", other.is_ok()),
    }
    let e = resolve_path(&doc, "owner.access.z").unwrap_err();
    assert_eq!(e.message(), "No object or array at level z");
}

#[test]
fn resolve_against_null_root_is_not_indexable() {
    let doc = JsonValue::Null;
    match resolve_path(&doc, "a") {
        Err(ResolveError::NotIndexable(p)) => {
            assert_eq!(p, "a");
        }
        other => panic!("expected NotIndexable, got {:?}", other.is_ok()),
    }
}

#[test]
fn resolve_index_with_leading_zeros_still_parses() {
    let doc = sample_doc();
    let v = resolve_path(&doc, "tags.01").expect("digits parse as an index");
    assert_eq!(json_value_to_str(v), "2");
}

#[test]
fn resolve_huge_index_is_not_an_integer() {
    let doc = sample_doc();
    match resolve_path(&doc, "tags.99999999999999999999999999999") {
        Err(ResolveError::NotAnInteger(s)) => {
            assert_eq!(s, "99999999999999999999999999999");
        }
        other => panic!("expected NotAnInteger, got {:?}", other.is_ok()),
    }
}

#[test]
fn resolve_index_with_leading_plus_sign() {
    let doc = sample_doc();
    let v = resolve_path(&doc, "tags.+1").expect("a signed index parses");
    assert_eq!(json_value_to_str(v), "2");
}

#[test]
fn resolve_index_with_doubled_sign_is_not_an_integer() {
    let doc = sample_doc();
    match resolve_path(&doc, "tags.++1") {
        Err(ResolveError::NotAnInteger(s)) => {
            assert_eq!(s, "++1");
        }
        other => panic!("expected NotAnInteger, got {:?}", other.is_ok()),
    }
}

#[test]
fn resolve_bare_sign_is_not_an_integer() {
    let doc = sample_doc();
    match resolve_path(&doc, "tags.+") {
        Err(ResolveError::NotAnInteger(s)) => {
            assert_eq!(s, "+");
        }
        other => panic!("expected NotAnInteger, got {:?}", other.is_ok()),
    }
}
