//! Bringing documents in: JSON text is parsed by serde_json and converted
//! into the library's own value tree.

use vstd::prelude::*;

verus! {

#[verifier::external_type_specification]
#[verifier::external_body]
pub struct ExJsonValue(serde_json::Value);

/// The tree a text parses to, if it parses: serde_json::from_str computes
/// a function of the text alone, so its outcome carries a name.
pub uninterp spec fn json_doc_of(text: Seq<char>) -> Option<crate::value::JsonValue>;

/// The parser's diagnostic text for a text that does not parse; a function
/// of the text alone, like the parse itself.
pub uninterp spec fn json_err_of(text: Seq<char>) -> Seq<char>;

/// Relies on serde_json::Value: converts a parsed tree into the library's
/// own variants, one arm per variant, moving fields only. A number takes
/// its canonical decimal text from serde_json::Number's Display. Keys are
/// unique within every serde_json::Map, so the converted tree is
/// well-formed.
#[verifier::external_body]
fn value_from_json(j: &serde_json::Value) -> (r: crate::value::JsonValue)
    ensures
        crate::value::value_wf(r),
{
    match j {
        serde_json::Value::Null => crate::value::JsonValue::Null,
        serde_json::Value::Bool(b) => crate::value::JsonValue::Bool(*b),
        serde_json::Value::Number(n) => crate::value::JsonValue::Number(n.to_string()),
        serde_json::Value::String(s) => crate::value::JsonValue::Text(s.clone()),
        serde_json::Value::Array(a) => crate::value::JsonValue::Array(
            a.iter().map(value_from_json).collect(),
        ),
        serde_json::Value::Object(m) => crate::value::JsonValue::Object(
            m.iter().map(|(k, v)| (k.clone(), value_from_json(v))).collect(),
        ),
    }
}

/// Relies on serde_json::from_str: parses JSON text into a value tree,
/// named `json_doc_of`, or reports the parser's error text, named
/// `json_err_of`; both are functions of the text alone. A parsed tree is
/// well-formed: object keys are unique.
#[verifier::external_body]
pub fn parse_json(text: &str) -> (r: Result<crate::value::JsonValue, String>)
    ensures
        r is Ok <==> json_doc_of(text@) is Some,
        r matches Ok(v) ==> json_doc_of(text@) == Some(v) && crate::value::value_wf(v),
        r matches Err(e) ==> e@ == json_err_of(text@),
{
    match serde_json::from_str::<serde_json::Value>(text) {
        Ok(v) => Ok(value_from_json(&v)),
        Err(e) => Err(e.to_string()),
    }
}

} // verus!
