//! The document tree: an immutable tagged union of JSON values.
//!
//! Numbers carry their canonical decimal text, so the tree holds only
//! plain values. Objects are ordered lists of key/value entries with
//! pairwise distinct keys; lookup takes the first (only) match.

use vstd::prelude::*;

verus! {

/// One JSON value. An `Object` keeps its entries in insertion order;
/// well-formed objects never repeat a key.
#[derive(Debug)]
pub enum JsonValue {
    Null,
    Bool(bool),
    Number(String),
    Text(String),
    Array(Vec<JsonValue>),
    Object(Vec<(String, JsonValue)>),
}

/// Well-formedness of a document tree: within every object the keys are
/// pairwise distinct, recursively.
pub open spec fn value_wf(v: JsonValue) -> bool
    decreases v,
{
    match v {
        JsonValue::Array(elems) => forall|i: int|
            0 <= i < elems@.len() ==> value_wf(#[trigger] elems@[i]),
        JsonValue::Object(entries) => {
            &&& forall|i: int, j: int|
                0 <= i < j < entries@.len() ==> entries@[i].0@ != entries@[j].0@
            &&& forall|i: int| 0 <= i < entries@.len() ==> value_wf(#[trigger] entries@[i].1)
        },
        _ => true,
    }
}

} // verus!
