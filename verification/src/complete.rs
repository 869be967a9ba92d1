//! The completion and hint engines. Completion re-resolves the dotted
//! prefix before the last separator with the same resolution rules as
//! printing, then enumerates continuations of the segment under the
//! cursor. Hinting is not dot-aware: it matches the whole typed remainder
//! against the top-level object's keys only, a kept limitation.

use vstd::prelude::*;

use crate::resolve::{descend_entries, resolve_path, resolve_spec, Resolution};
use crate::text::{
    dec_str, find_char, lemma_dec_str_digits, lemma_find_char_props, lemma_rfind_char_props,
    parse_index, rfind_char, rfind_in_str, str_starts_with, usize_to_string,
};
use crate::value::JsonValue;

verus! {

/// One completion candidate: the text shown in the menu and the text
/// spliced into the line. The engine always offers the same text for both.
pub struct Candidate {
    pub display: String,
    pub replacement: String,
}

/// Keys of `entries` that start with `partial`, in entry order.
pub open spec fn key_candidates(entries: Seq<(String, JsonValue)>, partial: Seq<char>) -> Seq<
    Seq<char>,
>
    decreases entries,
{
    if entries.len() == 0 {
        Seq::empty()
    } else {
        key_candidates(entries.drop_last(), partial) + (if partial.is_prefix_of(
            entries.last().0@,
        ) {
            seq![entries.last().0@]
        } else {
            Seq::empty()
        })
    }
}

/// Decimal texts of every index below `n`, in increasing order.
pub open spec fn index_candidates(n: int) -> Seq<Seq<char>>
    decreases n,
{
    if n <= 0 {
        Seq::empty()
    } else {
        index_candidates(n - 1).push(dec_str(n - 1))
    }
}

/// The continuations a node offers for a partial segment: an object's keys
/// filtered by the typed text; every index of an array, unfiltered (a kept
/// asymmetry); nothing for scalars.
pub open spec fn node_candidates(node: JsonValue, partial: Seq<char>) -> Seq<Seq<char>> {
    match node {
        JsonValue::Object(entries) => key_candidates(entries@, partial),
        JsonValue::Array(elems) => index_candidates(elems@.len() as int),
        _ => Seq::empty(),
    }
}

/// The candidate list carries exactly `texts`, as both display and
/// replacement.
pub open spec fn candidates_are(cands: Seq<Candidate>, texts: Seq<Seq<char>>) -> bool {
    &&& cands.len() == texts.len()
    &&& forall|i: int|
        0 <= i < cands.len() ==> (#[trigger] cands[i]).display@ == texts[i]
            && cands[i].replacement@ == texts[i]
}

fn object_candidates(entries: &Vec<(String, JsonValue)>, partial: &str) -> (r: Vec<Candidate>)
    ensures
        candidates_are(r@, key_candidates(entries@, partial@)),
{
    let mut out: Vec<Candidate> = Vec::new();
    let mut i: usize = 0;
    while i < entries.len()
        invariant
            0 <= i <= entries@.len(),
            candidates_are(out@, key_candidates(entries@.subrange(0, i as int), partial@)),
        decreases entries@.len() - i,
    {
        proof {
            let part = entries@.subrange(0, i as int + 1);
            assert(part.drop_last() =~= entries@.subrange(0, i as int));
            assert(part.last() == entries@[i as int]);
            if partial@.is_prefix_of(entries@[i as int].0@) {
                assert(key_candidates(part, partial@) =~= key_candidates(
                    entries@.subrange(0, i as int),
                    partial@,
                ).push(entries@[i as int].0@));
            } else {
                assert(key_candidates(part, partial@) =~= key_candidates(
                    entries@.subrange(0, i as int),
                    partial@,
                ));
            }
        }
        if str_starts_with(entries[i].0.as_str(), partial) {
            out.push(
                Candidate { display: entries[i].0.clone(), replacement: entries[i].0.clone() },
            );
        }
        i += 1;
    }
    proof {
        assert(entries@.subrange(0, entries@.len() as int) =~= entries@);
    }
    out
}

fn array_candidates(n: usize) -> (r: Vec<Candidate>)
    ensures
        candidates_are(r@, index_candidates(n as int)),
{
    let mut out: Vec<Candidate> = Vec::new();
    let mut i: usize = 0;
    while i < n
        invariant
            0 <= i <= n,
            candidates_are(out@, index_candidates(i as int)),
        decreases n - i,
    {
        let text = usize_to_string(i);
        out.push(Candidate { display: text.clone(), replacement: text });
        i += 1;
    }
    out
}

/// The continuations `node` offers for `partial`, as candidate pairs.
fn node_candidates_exec(node: &JsonValue, partial: &str) -> (r: Vec<Candidate>)
    ensures
        candidates_are(r@, node_candidates(*node, partial@)),
{
    match node {
        JsonValue::Object(entries) => object_candidates(entries, partial),
        JsonValue::Array(elems) => array_candidates(elems.len()),
        _ => Vec::new(),
    }
}

/// Where completion for a typed `print` line splices in, and what it
/// offers there: resolve the text between the command token and the last
/// separator, then enumerate that node's continuations of the segment
/// under the cursor; if that prefix does not resolve, offer nothing.
pub open spec fn complete_print_spec(
    line: Seq<char>,
    pos: int,
    doc: JsonValue,
    off: int,
    cands: Seq<Candidate>,
) -> bool {
    let local = line.subrange(6, line.len() as int);
    match rfind_char(local, '.') {
        None => off == 6 && candidates_are(cands, node_candidates(doc, local.subrange(0, pos - 6))),
        Some(d) => match resolve_spec(doc, local.subrange(0, d)) {
            Resolution::Found(node) => off == 6 + d + 1 && candidates_are(
                cands,
                node_candidates(node, local.subrange(d + 1, pos - 6)),
            ),
            _ => off == 0 && cands.len() == 0,
        },
    }
}

/// Completion for a `print` line: the replacement-start offset into the
/// whole line, and the candidate continuations of the segment under the
/// cursor.
pub fn complete_print(line: &str, pos: usize, doc: &JsonValue) -> (r: (usize, Vec<Candidate>))
    requires
        line@.len() >= 6,
        6 <= pos <= line@.len(),
        match rfind_char(line@.subrange(6, line@.len() as int), '.') {
            Some(d) => pos - 6 > d,
            None => true,
        },
    ensures
        complete_print_spec(line@, pos as int, *doc, r.0 as int, r.1@),
{
    let len = line.unicode_len();
    let local = line.substring_char(6, len);
    let lpos = pos - 6;
    match rfind_in_str(local, '.') {
        Some(d) => {
            proof {
                lemma_rfind_char_props(local@, '.');
            }
            let prefix = local.substring_char(0, d);
            let partial = local.substring_char(d + 1, lpos);
            match resolve_path(doc, prefix) {
                Ok(node) => {
                    let cands = node_candidates_exec(node, partial);
                    (6 + d + 1, cands)
                },
                Err(_) => (0, Vec::new()),
            }
        },
        None => {
            let partial = local.substring_char(0, lpos);
            (6, node_candidates_exec(doc, partial))
        },
    }
}

/// The first key of `entries` that starts with `partial`, in entry order.
pub open spec fn first_key_match(entries: Seq<(String, JsonValue)>, partial: Seq<char>) -> Option<
    Seq<char>,
>
    decreases entries,
{
    if entries.len() == 0 {
        None
    } else if partial.is_prefix_of(entries[0].0@) {
        Some(entries[0].0@)
    } else {
        first_key_match(entries.drop_first(), partial)
    }
}

/// The inline hint for a typed `print` line: only with the cursor at the
/// end of the line, and only against the top-level object's keys — the
/// typed remainder is matched whole, separators and all (a kept
/// limitation); the hint is the unseen suffix of the first matching key.
pub open spec fn hint_print_spec(line: Seq<char>, pos: int, doc: JsonValue) -> Option<Seq<char>> {
    let local = line.subrange(6, line.len() as int);
    if pos < line.len() {
        None
    } else {
        match doc {
            JsonValue::Object(entries) => match first_key_match(entries@, local) {
                Some(k) => Some(k.subrange(local.len() as int, k.len() as int)),
                None => None,
            },
            _ => None,
        }
    }
}

/// Compute the inline hint for a `print` line.
pub fn hint_print(line: &str, pos: usize, doc: &JsonValue) -> (r: Option<String>)
    requires
        line@.len() >= 6,
        6 <= pos <= line@.len(),
    ensures
        match r {
            Some(h) => hint_print_spec(line@, pos as int, *doc) == Some(h@),
            None => hint_print_spec(line@, pos as int, *doc) is None,
        },
{
    let len = line.unicode_len();
    if pos < len {
        return None;
    }
    let local = line.substring_char(6, len);
    let local_len = local.unicode_len();
    match doc {
        JsonValue::Object(entries) => {
            proof {
                assert(entries@.subrange(0, entries@.len() as int) =~= entries@);
            }
            let mut i: usize = 0;
            while i < entries.len()
                invariant
                    *doc == JsonValue::Object(*entries),
                    6 <= pos,
                    line@.len() <= pos,
                    local@ == line@.subrange(6, line@.len() as int),
                    local_len == local@.len(),
                    0 <= i <= entries@.len(),
                    first_key_match(entries@, local@) == first_key_match(
                        entries@.subrange(i as int, entries@.len() as int),
                        local@,
                    ),
                decreases entries@.len() - i,
            {
                proof {
                    let rest = entries@.subrange(i as int, entries@.len() as int);
                    assert(rest[0] == entries@[i as int]);
                    assert(rest.drop_first() =~= entries@.subrange(
                        i as int + 1,
                        entries@.len() as int,
                    ));
                }
                let key = &entries[i].0;
                if str_starts_with(key.as_str(), local) {
                    proof {
                        let rest = entries@.subrange(i as int, entries@.len() as int);
                        assert(first_key_match(rest, local@) == Some(entries@[i as int].0@));
                    }
                    let key_len = key.as_str().unicode_len();
                    let suffix = key.as_str().substring_char(local_len, key_len);
                    return Some(String::from_str(suffix));
                }
                i += 1;
            }
            proof {
                assert(entries@.subrange(entries@.len() as int, entries@.len() as int).len() == 0);
            }
            None
        },
        _ => None,
    }
}

proof fn lemma_key_candidates_member(
    entries: Seq<(String, JsonValue)>,
    partial: Seq<char>,
    cand: Seq<char>,
)
    requires
        key_candidates(entries, partial).contains(cand),
    ensures
        exists|i: int| 0 <= i < entries.len() && (#[trigger] entries[i]).0@ == cand,
    decreases entries.len(),
{
    let whole = key_candidates(entries, partial);
    let pre = key_candidates(entries.drop_last(), partial);
    if partial.is_prefix_of(entries.last().0@) {
        let j = choose|j: int| 0 <= j < whole.len() && whole[j] == cand;
        if j < pre.len() {
            assert(pre.contains(cand));
            lemma_key_candidates_member(entries.drop_last(), partial, cand);
            let i = choose|i: int|
                0 <= i < entries.drop_last().len() && (#[trigger] entries.drop_last()[i]).0@
                    == cand;
            assert(entries[i].0@ == cand);
        } else {
            assert(whole[j] == entries.last().0@);
            assert(entries[entries.len() - 1].0@ == cand);
        }
    } else {
        assert(whole =~= pre);
        lemma_key_candidates_member(entries.drop_last(), partial, cand);
        let i = choose|i: int|
            0 <= i < entries.drop_last().len() && (#[trigger] entries.drop_last()[i]).0@ == cand;
        assert(entries[i].0@ == cand);
    }
}

proof fn lemma_index_candidates_member(n: int, cand: Seq<char>)
    requires
        index_candidates(n).contains(cand),
    ensures
        exists|i: int| 0 <= i < n && cand == dec_str(i),
    decreases n,
{
    let whole = index_candidates(n);
    let pre = index_candidates(n - 1);
    let j = choose|j: int| 0 <= j < whole.len() && whole[j] == cand;
    if j < pre.len() {
        assert(pre.contains(cand));
        lemma_index_candidates_member(n - 1, cand);
    } else {
        assert(cand == dec_str(n - 1));
    }
}

proof fn lemma_descend_found(entries: Seq<(String, JsonValue)>, key: Seq<char>)
    requires
        exists|i: int| 0 <= i < entries.len() && (#[trigger] entries[i]).0@ == key,
    ensures
        descend_entries(entries, key, None) is Found,
    decreases entries.len(),
{
    if entries[0].0@ != key {
        let i = choose|i: int| 0 <= i < entries.len() && (#[trigger] entries[i]).0@ == key;
        assert(entries.drop_first()[i - 1].0@ == key);
        lemma_descend_found(entries.drop_first(), key);
    }
}

/// Every candidate a node offers, taken as one whole segment, names a
/// location that resolution finds in that node. Candidates holding a
/// separator are excluded: resolution would split them.
pub proof fn lemma_candidate_resolves(node: JsonValue, partial: Seq<char>, cand: Seq<char>)
    requires
        node_candidates(node, partial).contains(cand),
        !cand.contains('.'),
        node matches JsonValue::Array(elems) ==> elems@.len() <= usize::MAX as int,
    ensures
        resolve_spec(node, cand) is Found,
{
    lemma_find_char_props(cand, '.');
    if find_char(cand, '.') matches Some(d) {
        assert(cand.contains('.'));
    }
    match node {
        JsonValue::Object(entries) => {
            lemma_key_candidates_member(entries@, partial, cand);
            lemma_descend_found(entries@, cand);
        },
        JsonValue::Array(elems) => {
            lemma_index_candidates_member(elems@.len() as int, cand);
            let i = choose|i: int| 0 <= i < elems@.len() && cand == dec_str(i);
            lemma_dec_str_digits(i);
            assert(cand[0] != '+');
            assert(parse_index(cand) == Some(i));
        },
        _ => {},
    }
}

proof fn lemma_find_char_in_extension(prefix: Seq<char>, seg: Seq<char>)
    ensures
        ({
            let ext = prefix + seq!['.'] + seg;
            match find_char(prefix, '.') {
                Some(d) => find_char(ext, '.') == Some(d) && ext.subrange(0, d) == prefix.subrange(
                    0,
                    d,
                ) && ext.subrange(d + 1, ext.len() as int) == prefix.subrange(
                    d + 1,
                    prefix.len() as int,
                ) + seq!['.'] + seg,
                None => find_char(ext, '.') == Some(prefix.len() as int) && ext.subrange(
                    0,
                    prefix.len() as int,
                ) == prefix && ext.subrange(prefix.len() as int + 1, ext.len() as int) == seg,
            }
        }),
{
    let ext = prefix + seq!['.'] + seg;
    lemma_find_char_props(prefix, '.');
    lemma_find_char_props(ext, '.');
    assert(forall|j: int| 0 <= j < prefix.len() ==> ext[j] == prefix[j]);
    assert(ext[prefix.len() as int] == '.');
    match find_char(prefix, '.') {
        Some(d) => {
            assert(ext[d] == '.');
            match find_char(ext, '.') {
                Some(d2) => {
                    if d2 < d {
                        assert(ext[d2] == prefix[d2]);
                    }
                    assert(d2 == d);
                },
                None => {
                    assert(false);
                },
            }
            assert(ext.subrange(0, d) =~= prefix.subrange(0, d));
            assert(ext.subrange(d + 1, ext.len() as int) =~= prefix.subrange(
                d + 1,
                prefix.len() as int,
            ) + seq!['.'] + seg);
        },
        None => {
            match find_char(ext, '.') {
                Some(d2) => {
                    if d2 < prefix.len() {
                        assert(ext[d2] == prefix[d2]);
                    }
                    assert(d2 == prefix.len());
                },
                None => {
                    assert(false);
                },
            }
            assert(ext.subrange(0, prefix.len() as int) =~= prefix);
            assert(ext.subrange(prefix.len() as int + 1, ext.len() as int) =~= seg);
        },
    }
}

proof fn lemma_descend_final_then(
    entries: Seq<(String, JsonValue)>,
    key: Seq<char>,
    seg: Seq<char>,
)
    requires
        descend_entries(entries, key, None) is Found,
    ensures
        descend_entries(entries, key, Some(seg)) == resolve_spec(
            descend_entries(entries, key, None)->Found_0,
            seg,
        ),
    decreases entries.len(),
{
    if entries.len() > 0 && entries[0].0@ != key {
        lemma_descend_final_then(entries.drop_first(), key, seg);
    }
}

proof fn lemma_descend_extend(
    entries: Seq<(String, JsonValue)>,
    key: Seq<char>,
    tail: Seq<char>,
    seg: Seq<char>,
)
    requires
        descend_entries(entries, key, Some(tail)) is Found,
        !seg.contains('.'),
    ensures
        descend_entries(entries, key, Some(tail + seq!['.'] + seg)) == resolve_spec(
            descend_entries(entries, key, Some(tail))->Found_0,
            seg,
        ),
    decreases entries,
{
    if entries.len() > 0 {
        if entries[0].0@ == key {
            lemma_resolve_extend(entries[0].1, tail, seg);
        } else {
            lemma_descend_extend(entries.drop_first(), key, tail, seg);
        }
    }
}

/// Extending a path that resolves with a separator and one more segment
/// resolves that segment against the value the path names.
pub proof fn lemma_resolve_extend(v: JsonValue, prefix: Seq<char>, seg: Seq<char>)
    requires
        resolve_spec(v, prefix) is Found,
        !seg.contains('.'),
    ensures
        resolve_spec(v, prefix + seq!['.'] + seg) == resolve_spec(
            resolve_spec(v, prefix)->Found_0,
            seg,
        ),
    decreases v,
{
    let ext = prefix + seq!['.'] + seg;
    lemma_find_char_in_extension(prefix, seg);
    match v {
        JsonValue::Object(entries) => {
            match find_char(prefix, '.') {
                Some(d) => {
                    lemma_descend_extend(
                        entries@,
                        prefix.subrange(0, d),
                        prefix.subrange(d + 1, prefix.len() as int),
                        seg,
                    );
                },
                None => {
                    lemma_descend_final_then(entries@, prefix, seg);
                },
            }
        },
        JsonValue::Array(elems) => {
            match find_char(prefix, '.') {
                Some(d) => {
                    let head = prefix.subrange(0, d);
                    let tail = prefix.subrange(d + 1, prefix.len() as int);
                    match parse_index(head) {
                        Some(i) => {
                            lemma_resolve_extend(elems@[i], tail, seg);
                        },
                        None => {},
                    }
                },
                None => {},
            }
        },
        _ => {},
    }
}

/// Completion soundness: a candidate offered for the partial segment after
/// the last separator of a resolving prefix, spliced in after that
/// separator, names a location that path resolution finds. Candidates
/// holding a separator of their own are excluded, and an array in scope is
/// one whose length the machine can index.
pub proof fn lemma_completion_sound(
    doc: JsonValue,
    prefix: Seq<char>,
    partial: Seq<char>,
    cand: Seq<char>,
)
    requires
        resolve_spec(doc, prefix) is Found,
        node_candidates(resolve_spec(doc, prefix)->Found_0, partial).contains(cand),
        !cand.contains('.'),
        resolve_spec(doc, prefix)->Found_0 matches JsonValue::Array(elems) ==> elems@.len()
            <= usize::MAX as int,
    ensures
        resolve_spec(doc, prefix + seq!['.'] + cand) is Found,
{
    lemma_candidate_resolves(resolve_spec(doc, prefix)->Found_0, partial, cand);
    lemma_resolve_extend(doc, prefix, cand);
}

/// Completion soundness at the root: with no separator typed yet, a
/// candidate is itself a path that resolution finds in the document.
pub proof fn lemma_completion_sound_root(doc: JsonValue, partial: Seq<char>, cand: Seq<char>)
    requires
        node_candidates(doc, partial).contains(cand),
        !cand.contains('.'),
        doc matches JsonValue::Array(elems) ==> elems@.len() <= usize::MAX as int,
    ensures
        resolve_spec(doc, cand) is Found,
{
    lemma_candidate_resolves(doc, partial, cand);
}

} // verus!
