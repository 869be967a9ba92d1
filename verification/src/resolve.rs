//! The path resolver: walks a value tree along a dotted path, splitting
//! at the first separator, and returns the addressed value or a typed
//! failure naming the offending segment.

use vstd::prelude::*;

use crate::text::{
    dec_str, find_char, find_in_str, lemma_find_char_props, parse_index, parse_usize, str_eq,
    usize_to_string,
};
use crate::value::JsonValue;

verus! {

/// The outcome of resolving a path against a value.
pub enum Resolution {
    Found(JsonValue),
    MissingKey(Seq<char>),
    MissingIndex(int),
    NotAnInt(Seq<char>),
    NotIndexable(Seq<char>),
}

/// Scan object entries for `key`, first match wins; on a hit either stop
/// there (no remaining path) or resolve the remaining path against the
/// entry's value.
pub open spec fn descend_entries(
    entries: Seq<(String, JsonValue)>,
    key: Seq<char>,
    rest: Option<Seq<char>>,
) -> Resolution
    decreases entries,
{
    if entries.len() == 0 {
        Resolution::MissingKey(key)
    } else if entries[0].0@ == key {
        match rest {
            None => Resolution::Found(entries[0].1),
            Some(t) => resolve_spec(entries[0].1, t),
        }
    } else {
        descend_entries(entries.drop_first(), key, rest)
    }
}

/// Resolution of a dotted path, segment by segment: split at the first
/// separator, look the head up in the current node (a literal key in an
/// object, a decimal index in an array), then continue with the tail.
/// Scalars cannot be descended into.
pub open spec fn resolve_spec(v: JsonValue, p: Seq<char>) -> Resolution
    decreases v,
{
    match v {
        JsonValue::Object(entries) => match find_char(p, '.') {
            Some(d) => descend_entries(
                entries@,
                p.subrange(0, d),
                Some(p.subrange(d + 1, p.len() as int)),
            ),
            None => descend_entries(entries@, p, None),
        },
        JsonValue::Array(elems) => {
            let seg = match find_char(p, '.') {
                Some(d) => p.subrange(0, d),
                None => p,
            };
            let rest = match find_char(p, '.') {
                Some(d) => Some(p.subrange(d + 1, p.len() as int)),
                None => None,
            };
            match parse_index(seg) {
                Some(i) => if 0 <= i && i < elems@.len() {
                    match rest {
                        None => Resolution::Found(elems@[i]),
                        Some(t) => resolve_spec(elems@[i], t),
                    }
                } else {
                    Resolution::MissingIndex(i)
                },
                None => Resolution::NotAnInt(seg),
            }
        },
        _ => Resolution::NotIndexable(p),
    }
}

/// A typed resolution failure, naming what was missing or mismatched.
#[derive(Debug)]
pub enum ResolveError {
    KeyNotFound(String),
    IndexNotFound(usize),
    NotAnInteger(String),
    NotIndexable(String),
}

/// Whether the error value reports exactly the failure of `res`.
pub open spec fn err_matches(res: Resolution, e: ResolveError) -> bool {
    match res {
        Resolution::Found(_) => false,
        Resolution::MissingKey(k) => e matches ResolveError::KeyNotFound(s) && s@ == k,
        Resolution::MissingIndex(i) => e matches ResolveError::IndexNotFound(n) && n as int == i,
        Resolution::NotAnInt(s0) => e matches ResolveError::NotAnInteger(s) && s@ == s0,
        Resolution::NotIndexable(s0) => e matches ResolveError::NotIndexable(s) && s@ == s0,
    }
}

/// If entry `i` is the first whose key is `key`, the scan stops there.
pub proof fn lemma_descend_entries_at(
    entries: Seq<(String, JsonValue)>,
    key: Seq<char>,
    rest: Option<Seq<char>>,
    i: int,
)
    requires
        0 <= i < entries.len(),
        entries[i].0@ == key,
        forall|j: int| 0 <= j < i ==> entries[j].0@ != key,
    ensures
        descend_entries(entries, key, rest) == match rest {
            None => Resolution::Found(entries[i].1),
            Some(t) => resolve_spec(entries[i].1, t),
        },
    decreases i,
{
    if i > 0 {
        assert(forall|j: int|
            0 <= j < i - 1 ==> entries.drop_first()[j] == entries[j + 1]);
        lemma_descend_entries_at(entries.drop_first(), key, rest, i - 1);
    }
}

/// If no entry has key `key`, the scan reports the key as missing.
pub proof fn lemma_descend_entries_missing(
    entries: Seq<(String, JsonValue)>,
    key: Seq<char>,
    rest: Option<Seq<char>>,
)
    requires
        forall|j: int| 0 <= j < entries.len() ==> entries[j].0@ != key,
    ensures
        descend_entries(entries, key, rest) == Resolution::MissingKey(key),
    decreases entries.len(),
{
    if entries.len() > 0 {
        assert(forall|j: int|
            0 <= j < entries.len() - 1 ==> entries.drop_first()[j] == entries[j + 1]);
        lemma_descend_entries_missing(entries.drop_first(), key, rest);
    }
}

/// Index of the first entry whose key equals `key`, if any.
fn find_entry_index(entries: &Vec<(String, JsonValue)>, key: &str) -> (r: Option<usize>)
    ensures
        match r {
            Some(i) => i < entries@.len() && entries@[i as int].0@ == key@ && forall|j: int|
                0 <= j < i ==> entries@[j].0@ != key@,
            None => forall|j: int| 0 <= j < entries@.len() ==> entries@[j].0@ != key@,
        },
{
    let mut i: usize = 0;
    while i < entries.len()
        invariant
            0 <= i <= entries@.len(),
            forall|j: int| 0 <= j < i ==> entries@[j].0@ != key@,
        decreases entries@.len() - i,
    {
        if str_eq(entries[i].0.as_str(), key) {
            return Some(i);
        }
        i += 1;
    }
    None
}

/// Resolve `path` against `v`: the returned reference points at the value
/// the path names, and each failure reports exactly the typed outcome of
/// the resolution.
pub fn resolve_path<'a>(v: &'a JsonValue, path: &str) -> (r: Result<&'a JsonValue, ResolveError>)
    ensures
        match r {
            Ok(found) => resolve_spec(*v, path@) == Resolution::Found(*found),
            Err(e) => err_matches(resolve_spec(*v, path@), e),
        },
    decreases *v,
{
    proof {
        lemma_find_char_props(path@, '.');
    }
    match v {
        JsonValue::Object(entries) => {
            match find_in_str(path, '.') {
                Some(d) => {
                    let len = path.unicode_len();
                    let head = path.substring_char(0, d);
                    let tail = path.substring_char(d + 1, len);
                    match find_entry_index(entries, head) {
                        Some(i) => {
                            proof {
                                lemma_descend_entries_at(
                                    entries@,
                                    head@,
                                    Some(tail@),
                                    i as int,
                                );
                            }
                            let pair = &entries[i];
                            resolve_path(&pair.1, tail)
                        },
                        None => {
                            proof {
                                lemma_descend_entries_missing(entries@, head@, Some(tail@));
                            }
                            Err(ResolveError::KeyNotFound(String::from_str(head)))
                        },
                    }
                },
                None => {
                    match find_entry_index(entries, path) {
                        Some(i) => {
                            proof {
                                lemma_descend_entries_at(entries@, path@, None, i as int);
                            }
                            let pair = &entries[i];
                            Ok(&pair.1)
                        },
                        None => {
                            proof {
                                lemma_descend_entries_missing(entries@, path@, None);
                            }
                            Err(ResolveError::KeyNotFound(String::from_str(path)))
                        },
                    }
                },
            }
        },
        JsonValue::Array(elems) => {
            match find_in_str(path, '.') {
                Some(d) => {
                    let len = path.unicode_len();
                    let head = path.substring_char(0, d);
                    let tail = path.substring_char(d + 1, len);
                    match parse_usize(head) {
                        Some(n) => {
                            if n < elems.len() {
                                let elem = &elems[n];
                                resolve_path(elem, tail)
                            } else {
                                Err(ResolveError::IndexNotFound(n))
                            }
                        },
                        None => Err(ResolveError::NotAnInteger(String::from_str(head))),
                    }
                },
                None => {
                    match parse_usize(path) {
                        Some(n) => {
                            if n < elems.len() {
                                Ok(&elems[n])
                            } else {
                                Err(ResolveError::IndexNotFound(n))
                            }
                        },
                        None => Err(ResolveError::NotAnInteger(String::from_str(path))),
                    }
                },
            }
        },
        _ => Err(ResolveError::NotIndexable(String::from_str(path))),
    }
}

/// The diagnostic text of a typed resolution failure.
pub open spec fn error_text(res: Resolution) -> Seq<char> {
    match res {
        Resolution::Found(_) => Seq::empty(),
        Resolution::MissingKey(k) => "Key "@ + k + " not found"@,
        Resolution::MissingIndex(i) => "index "@ + dec_str(i) + " not found"@,
        Resolution::NotAnInt(s) => "Expected "@ + s + " to be an integer"@,
        Resolution::NotIndexable(p) => "No object or array at level "@ + p,
    }
}

impl ResolveError {
    /// The human-readable diagnostic naming the offending segment.
    pub fn message(&self) -> (r: String)
        ensures
            forall|res: Resolution| err_matches(res, *self) ==> r@ == error_text(res),
    {
        match self {
            ResolveError::KeyNotFound(k) => {
                let mut s = String::from_str("Key ");
                s.append(k.as_str());
                s.append(" not found");
                s
            },
            ResolveError::IndexNotFound(i) => {
                let mut s = String::from_str("index ");
                s.append(usize_to_string(*i).as_str());
                s.append(" not found");
                s
            },
            ResolveError::NotAnInteger(seg) => {
                let mut s = String::from_str("Expected ");
                s.append(seg.as_str());
                s.append(" to be an integer");
                s
            },
            ResolveError::NotIndexable(p) => {
                let mut s = String::from_str("No object or array at level ");
                s.append(p.as_str());
                s
            },
        }
    }
}

} // verus!
