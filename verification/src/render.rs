//! The value renderer: canonical display text for every value variant.
//! Rendering is total. String values are reproduced between double
//! quotes with no escaping of interior quotes, a kept limitation.

use vstd::prelude::*;

use crate::value::JsonValue;

verus! {

/// Display text of a value: scalars by their literal text, arrays and
/// objects between brackets with comma-space-joined members in entry
/// order, object entries as `key: value`.
pub open spec fn render_spec(v: JsonValue) -> Seq<char>
    decreases v,
{
    match v {
        JsonValue::Null => "null"@,
        JsonValue::Bool(b) => if b {
            "true"@
        } else {
            "false"@
        },
        JsonValue::Number(n) => n@,
        JsonValue::Text(s) => "\""@ + s@ + "\""@,
        JsonValue::Array(elems) => "["@ + render_elems(elems@) + "]"@,
        JsonValue::Object(entries) => "{"@ + render_entries(entries@) + "}"@,
    }
}

/// Comma-space-joined display text of array elements.
pub open spec fn render_elems(elems: Seq<JsonValue>) -> Seq<char>
    decreases elems,
{
    if elems.len() == 0 {
        Seq::empty()
    } else if elems.len() == 1 {
        render_spec(elems[0])
    } else {
        render_elems(elems.drop_last()) + ", "@ + render_spec(elems.last())
    }
}

/// Comma-space-joined display text of object entries.
pub open spec fn render_entries(entries: Seq<(String, JsonValue)>) -> Seq<char>
    decreases entries,
{
    if entries.len() == 0 {
        Seq::empty()
    } else if entries.len() == 1 {
        entries.last().0@ + ": "@ + render_spec(entries.last().1)
    } else {
        render_entries(entries.drop_last()) + ", "@ + entries.last().0@ + ": "@
            + render_spec(entries.last().1)
    }
}

/// Render a value as its canonical display text. Total: every variant
/// renders, including empty arrays and objects.
pub fn json_value_to_str(val: &JsonValue) -> (r: String)
    ensures
        r@ == render_spec(*val),
    decreases *val,
{
    match val {
        JsonValue::Null => String::from_str("null"),
        JsonValue::Bool(b) => if *b {
            String::from_str("true")
        } else {
            String::from_str("false")
        },
        JsonValue::Number(n) => n.clone(),
        JsonValue::Text(s) => {
            let mut out = String::from_str("\"");
            out.append(s.as_str());
            out.append("\"");
            out
        },
        JsonValue::Array(elems) => {
            let mut out = String::from_str("[");
            let mut i: usize = 0;
            while i < elems.len()
                invariant
                    *val == JsonValue::Array(*elems),
                    0 <= i <= elems@.len(),
                    out@ == "["@ + render_elems(elems@.subrange(0, i as int)),
                decreases elems@.len() - i,
            {
                if i > 0 {
                    out.append(", ");
                }
                proof {
                    let varr = JsonValue::Array(*elems);
                    assert(decreases_to!(varr => varr->Array_0));
                    assert(decreases_to!(*elems => elems@[i as int]));
                }
                let piece = json_value_to_str(&elems[i]);
                out.append(piece.as_str());
                proof {
                    let part = elems@.subrange(0, i as int + 1);
                    assert(part.drop_last() =~= elems@.subrange(0, i as int));
                    assert(part.last() == elems@[i as int]);
                    assert(out@ =~= "["@ + render_elems(part));
                }
                i += 1;
            }
            out.append("]");
            proof {
                assert(elems@.subrange(0, elems@.len() as int) =~= elems@);
                assert(out@ =~= "["@ + render_elems(elems@) + "]"@);
            }
            out
        },
        JsonValue::Object(entries) => {
            let mut out = String::from_str("{");
            let mut i: usize = 0;
            while i < entries.len()
                invariant
                    *val == JsonValue::Object(*entries),
                    0 <= i <= entries@.len(),
                    out@ == "{"@ + render_entries(entries@.subrange(0, i as int)),
                decreases entries@.len() - i,
            {
                if i > 0 {
                    out.append(", ");
                }
                let pair = &entries[i];
                out.append(pair.0.as_str());
                out.append(": ");
                proof {
                    let vobj = JsonValue::Object(*entries);
                    assert(decreases_to!(vobj => vobj->Object_0));
                    assert(decreases_to!(*entries => entries@[i as int]));
                    let entry = entries@[i as int];
                    assert(decreases_to!(entry => entry.1));
                }
                let piece = json_value_to_str(&pair.1);
                out.append(piece.as_str());
                proof {
                    let part = entries@.subrange(0, i as int + 1);
                    assert(part.drop_last() =~= entries@.subrange(0, i as int));
                    assert(part.last() == entries@[i as int]);
                    assert(out@ =~= "{"@ + render_entries(part));
                }
                i += 1;
            }
            out.append("}");
            proof {
                assert(entries@.subrange(0, entries@.len() as int) =~= entries@);
                assert(out@ =~= "{"@ + render_entries(entries@) + "}"@);
            }
            out
        },
    }
}

} // verus!
