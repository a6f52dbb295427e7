//! The library's JSON document model with deep merge, empty-value pruning
//! and legacy-tolerant field reads, plus the trusted boundary to
//! `serde_json` for parsing and serialising.
//!
//! Objects are ordered key/value lists; numbers carry the underlying
//! `serde_json` number so nothing is lost crossing the boundary.

use vstd::prelude::*;
use crate::strutil::str_eq;

verus! {

broadcast use {vstd::seq::group_seq_axioms, vstd::std_specs::vec::group_vec_axioms};

/// Declares `serde_json::Number` so values of it can live in our tree.
#[verifier::external_type_specification]
#[verifier::external_body]
pub struct ExNumber(serde_json::Number);

/// Declares `serde_json::Value`, the parsed form handed over by serde.
#[verifier::external_type_specification]
#[verifier::external_body]
pub struct ExValue(serde_json::Value);

/// The canonical text of a `serde_json` number; a function of the number's
/// content alone.
pub uninterp spec fn number_model(n: serde_json::Number) -> Seq<char>;

/// The number's value as a signed 64-bit integer, when it is one; a
/// function of the number's content alone.
pub uninterp spec fn number_int(n: serde_json::Number) -> Option<i64>;

/// A JSON document.
#[derive(Debug, PartialEq)]
pub enum JsonVal {
    Null,
    Bool(bool),
    Num(serde_json::Number),
    Str(String),
    Arr(Vec<JsonVal>),
    Obj(Vec<(String, JsonVal)>),
}

/// The mathematical shape of a JSON document.
#[verifier::ext_equal]
pub enum JsonData {
    Null,
    Bool(bool),
    Num(Seq<char>, Option<i64>),
    Str(Seq<char>),
    Arr(Seq<JsonData>),
    Obj(Seq<(Seq<char>, JsonData)>),
}

/// The content of a document as a `JsonData`.
pub open spec fn json_view(v: JsonVal) -> JsonData
    decreases v,
{
    match v {
        JsonVal::Null => JsonData::Null,
        JsonVal::Bool(b) => JsonData::Bool(b),
        JsonVal::Num(n) => JsonData::Num(number_model(n), number_int(n)),
        JsonVal::Str(s) => JsonData::Str(s@),
        JsonVal::Arr(items) => JsonData::Arr(
            Seq::new(
                items@.len(),
                |i: int|
                    if 0 <= i < items@.len() {
                        json_view(items@[i])
                    } else {
                        JsonData::Null
                    },
            ),
        ),
        JsonVal::Obj(entries) => JsonData::Obj(
            Seq::new(
                entries@.len(),
                |i: int|
                    if 0 <= i < entries@.len() {
                        (entries@[i].0@, json_view(entries@[i].1))
                    } else {
                        (entries@[i].0@, JsonData::Null)
                    },
            ),
        ),
    }
}

impl View for JsonVal {
    type V = JsonData;

    open spec fn view(&self) -> JsonData {
        json_view(*self)
    }
}

/// The views of a vector of object entries.
pub open spec fn entries_view(s: Seq<(String, JsonVal)>) -> Seq<(Seq<char>, JsonData)> {
    Seq::new(s.len(), |i: int| (s[i].0@, s[i].1@))
}

/// The view of an `Obj` vector is `entries_view` of its entry views.
pub broadcast proof fn lemma_obj_view(entries: Vec<(String, JsonVal)>)
    ensures
        (#[trigger] JsonVal::Obj(entries)@) == JsonData::Obj(entries_view(entries@)),
{
    let a = JsonVal::Obj(entries)@;
    let s1 = a->Obj_0;
    let s2 = entries_view(entries@);
    assert(s1.len() == s2.len());
    assert forall|i: int| 0 <= i < s1.len() implies s1[i] == s2[i] by {
        assert(s1[i] == (entries@[i].0@, entries@[i].1@));
        assert(s2[i] == (entries@[i].0@, entries@[i].1@));
    }
    assert(s1 =~~= s2);
    assert(a == JsonData::Obj(s1));
}

/// The view of an `Arr` vector.
pub broadcast proof fn lemma_arr_view(items: Vec<JsonVal>)
    ensures
        (#[trigger] JsonVal::Arr(items)@) == JsonData::Arr(
            Seq::new(items@.len(), |i: int| items@[i]@),
        ),
{
    let a = JsonVal::Arr(items)@;
    let s1 = a->Arr_0;
    let s2 = Seq::new(items@.len(), |i: int| items@[i]@);
    assert(s1.len() == s2.len());
    assert forall|i: int| 0 <= i < s1.len() implies s1[i] == s2[i] by {
        assert(s1[i] == items@[i]@);
        assert(s2[i] == items@[i]@);
    }
    assert(s1 =~~= s2);
    assert(a == JsonData::Arr(s1));
}

/// Looks a key up in an entry list; the first match wins.
pub open spec fn obj_lookup(es: Seq<(Seq<char>, JsonData)>, k: Seq<char>) -> Option<JsonData>
    decreases es.len(),
{
    if es.len() == 0 {
        Option::None
    } else if es[0].0 == k {
        Option::Some(es[0].1)
    } else {
        obj_lookup(es.drop_first(), k)
    }
}

/// Whether an entry list holds a key.
pub open spec fn obj_has_key(es: Seq<(Seq<char>, JsonData)>, k: Seq<char>) -> bool {
    obj_lookup(es, k) is Some
}

/// The index of the first entry holding `k` (meaningful only when the key
/// is present).
pub open spec fn obj_index_of(es: Seq<(Seq<char>, JsonData)>, k: Seq<char>) -> int
    decreases es.len(),
{
    if es.len() == 0 {
        0
    } else if es[0].0 == k {
        0
    } else {
        1 + obj_index_of(es.drop_first(), k)
    }
}

/// When a key is present, `obj_index_of` names its first occurrence and
/// `obj_lookup` returns that entry's value.
pub proof fn lemma_obj_index(es: Seq<(Seq<char>, JsonData)>, k: Seq<char>)
    requires
        obj_has_key(es, k),
    ensures
        0 <= obj_index_of(es, k) < es.len(),
        es[obj_index_of(es, k)].0 == k,
        obj_lookup(es, k) == Option::Some(es[obj_index_of(es, k)].1),
        forall|j: int| 0 <= j < obj_index_of(es, k) ==> (#[trigger] es[j]).0 != k,
    decreases es.len(),
{
    if es.len() > 0 && es[0].0 != k {
        lemma_obj_index(es.drop_first(), k);
        assert(forall|j: int|
            1 <= j < es.len() ==> #[trigger] es[j] == es.drop_first()[j - 1]);
    }
}

/// The entries of `os` whose keys do not occur in `bs`, in order.
pub open spec fn novel_entries(
    os: Seq<(Seq<char>, JsonData)>,
    bs: Seq<(Seq<char>, JsonData)>,
) -> Seq<(Seq<char>, JsonData)>
    decreases os.len(),
{
    if os.len() == 0 {
        Seq::empty()
    } else if obj_has_key(bs, os[0].0) {
        novel_entries(os.drop_first(), bs)
    } else {
        seq![os[0]] + novel_entries(os.drop_first(), bs)
    }
}

/// Appending one entry to `os` extends `novel_entries` by that entry when
/// its key is new.
pub proof fn lemma_novel_snoc(
    os: Seq<(Seq<char>, JsonData)>,
    e: (Seq<char>, JsonData),
    bs: Seq<(Seq<char>, JsonData)>,
)
    ensures
        novel_entries(os.push(e), bs) == if obj_has_key(bs, e.0) {
            novel_entries(os, bs)
        } else {
            novel_entries(os, bs) + seq![e]
        },
    decreases os.len(),
{
    if os.len() == 0 {
        reveal_with_fuel(novel_entries, 3);
        assert(os.push(e).drop_first() =~~= Seq::<(Seq<char>, JsonData)>::empty());
        assert(os.push(e)[0] == e);
        if !obj_has_key(bs, e.0) {
            assert(novel_entries(os.push(e), bs) =~~= novel_entries(os, bs) + seq![e]);
        }
    } else {
        assert(os.push(e).drop_first() =~~= os.drop_first().push(e));
        assert(os.push(e)[0] == os[0]);
        lemma_novel_snoc(os.drop_first(), e, bs);
        if !obj_has_key(bs, os[0].0) && !obj_has_key(bs, e.0) {
            assert(seq![os[0]] + (novel_entries(os.drop_first(), bs) + seq![e]) =~~= (seq![os[0]]
                + novel_entries(os.drop_first(), bs)) + seq![e]);
        }
    }
}

/// Deep merge: where both sides hold an object at a key the merge recurses,
/// otherwise the overlay's entry replaces the base's; keys found only in
/// the overlay are appended. When either side is not an object the base is
/// kept unchanged.
pub open spec fn spec_deep_merge(base: JsonData, overlay: JsonData) -> JsonData
    decreases overlay,
{
    match (base, overlay) {
        (JsonData::Obj(bs), JsonData::Obj(os)) => JsonData::Obj(
            merged_base_entries(bs, os) + novel_entries(os, bs),
        ),
        _ => base,
    }
}

/// The merged form of each base entry: overridden, merged recursively, or
/// kept, depending on what the overlay holds at its key.
pub open spec fn merged_base_entries(
    bs: Seq<(Seq<char>, JsonData)>,
    os: Seq<(Seq<char>, JsonData)>,
) -> Seq<(Seq<char>, JsonData)>
    decreases os,
{
    Seq::new(
        bs.len(),
        |i: int|
            if 0 <= i < bs.len() && 0 <= obj_index_of(os, bs[i].0) < os.len() && os[obj_index_of(
                os,
                bs[i].0,
            )].0 == bs[i].0 {
                (
                    bs[i].0,
                    if (bs[i].1 is Obj) && (os[obj_index_of(os, bs[i].0)].1 is Obj) {
                        spec_deep_merge(bs[i].1, os[obj_index_of(os, bs[i].0)].1)
                    } else {
                        os[obj_index_of(os, bs[i].0)].1
                    },
                )
            } else {
                (bs[i].0, bs[i].1)
            },
    )
}

/// When the key is absent, `obj_index_of` runs off the end.
pub proof fn lemma_obj_index_absent(es: Seq<(Seq<char>, JsonData)>, k: Seq<char>)
    requires
        !obj_has_key(es, k),
    ensures
        obj_index_of(es, k) == es.len(),
    decreases es.len(),
{
    if es.len() > 0 {
        lemma_obj_index_absent(es.drop_first(), k);
    }
}

/// The guard used by `merged_base_entries` is exactly key presence.
pub proof fn lemma_merge_guard(os: Seq<(Seq<char>, JsonData)>, k: Seq<char>)
    ensures
        obj_has_key(os, k) <==> (0 <= obj_index_of(os, k) < os.len() && os[obj_index_of(os, k)].0
            == k),
{
    if obj_has_key(os, k) {
        lemma_obj_index(os, k);
    } else {
        lemma_obj_index_absent(os, k);
    }
}

/// An entry survives pruning if its (already pruned) value is neither null
/// nor an empty object.
pub open spec fn keep_entry(v: JsonData) -> bool {
    !(v is Null) && !(v matches JsonData::Obj(es) && es.len() == 0)
}

/// The entries that survive pruning, in order.
pub open spec fn kept_entries(es: Seq<(Seq<char>, JsonData)>) -> Seq<(Seq<char>, JsonData)>
    decreases es.len(),
{
    if es.len() == 0 {
        Seq::empty()
    } else if keep_entry(es[0].1) {
        seq![es[0]] + kept_entries(es.drop_first())
    } else {
        kept_entries(es.drop_first())
    }
}

/// Appending one entry to `es` extends `kept_entries` by it when it is
/// kept.
pub proof fn lemma_kept_snoc(es: Seq<(Seq<char>, JsonData)>, e: (Seq<char>, JsonData))
    ensures
        kept_entries(es.push(e)) == if keep_entry(e.1) {
            kept_entries(es) + seq![e]
        } else {
            kept_entries(es)
        },
    decreases es.len(),
{
    if es.len() == 0 {
        reveal_with_fuel(kept_entries, 3);
        assert(es.push(e).drop_first() =~~= Seq::<(Seq<char>, JsonData)>::empty());
        assert(es.push(e)[0] == e);
        if keep_entry(e.1) {
            assert(kept_entries(es.push(e)) =~~= kept_entries(es) + seq![e]);
        }
    } else {
        assert(es.push(e).drop_first() =~~= es.drop_first().push(e));
        assert(es.push(e)[0] == es[0]);
        lemma_kept_snoc(es.drop_first(), e);
        if keep_entry(es[0].1) && keep_entry(e.1) {
            assert(seq![es[0]] + (kept_entries(es.drop_first()) + seq![e]) =~~= (seq![es[0]]
                + kept_entries(es.drop_first())) + seq![e]);
        }
    }
}

/// Pruning: object entries whose value prunes to null or to an empty
/// object are dropped, recursively; arrays (even empty ones) and all other
/// values are kept as they are.
pub open spec fn spec_prune(j: JsonData) -> JsonData
    decreases j,
{
    match j {
        JsonData::Obj(es) => JsonData::Obj(kept_entries(pruned_entries(es))),
        _ => j,
    }
}

/// Each entry with its value pruned.
pub open spec fn pruned_entries(es: Seq<(Seq<char>, JsonData)>) -> Seq<(Seq<char>, JsonData)>
    decreases es,
{
    Seq::new(
        es.len(),
        |i: int|
            if 0 <= i < es.len() {
                (es[i].0, spec_prune(es[i].1))
            } else {
                es[i]
            },
    )
}

/// Object keys are pairwise distinct.
pub open spec fn distinct_keys(es: Seq<(Seq<char>, JsonData)>) -> bool {
    forall|i: int, j: int|
        #![trigger es[i].0, es[j].0]
        0 <= i < j < es.len() ==> es[i].0 != es[j].0
}

/// A well-formed document: every object's keys are distinct, recursively.
pub open spec fn json_wf(j: JsonData) -> bool
    decreases j,
{
    match j {
        JsonData::Obj(es) => distinct_keys(es) && forall|i: int|
            0 <= i < es.len() ==> json_wf((#[trigger] es[i]).1),
        JsonData::Arr(items) => forall|i: int|
            0 <= i < items.len() ==> json_wf(#[trigger] items[i]),
        _ => true,
    }
}

/// The abstract content of a `serde_json::Value`; what `value_to_json`
/// recovers from it.
pub uninterp spec fn value_model(v: serde_json::Value) -> JsonData;

/// What `serde_json::from_str::<serde_json::Value>` yields on a text: the
/// parsed document's content, or nothing when the text is not valid JSON.
/// A function of the text alone.
pub uninterp spec fn json_of(s: Seq<char>) -> Option<JsonData>;

/// What `serde_json::to_string_pretty` prints for a document with the
/// given content; a function of the content alone.
pub uninterp spec fn json_pretty(j: JsonData) -> Seq<char>;

/// What `serde_json::to_string` (the compact form) prints for a document
/// with the given content; a function of the content alone.
pub uninterp spec fn json_min(j: JsonData) -> Seq<char>;

/// Relies on `<serde_json::Number as Clone>::clone`: the copy has the same
/// content as the original.
#[verifier::external_body]
pub fn number_clone(n: &serde_json::Number) -> (r: serde_json::Number)
    ensures
        number_model(r) == number_model(*n),
        number_int(r) == number_int(*n),
{
    n.clone()
}

/// Relies on `serde_json::Number::as_i64`: the number's value when it is
/// representable as a signed 64-bit integer.
#[verifier::external_body]
pub fn number_as_i64(n: &serde_json::Number) -> (r: Option<i64>)
    ensures
        r == number_int(*n),
{
    n.as_i64()
}

/// Relies on the `serde_json::Value` variant accessors: rebuilds the
/// library's own tree from a parsed value, one variant at a time, moving
/// the content across unchanged.
#[verifier::external_body]
pub fn value_to_json(v: &serde_json::Value) -> (r: JsonVal)
    ensures
        r@ == value_model(*v),
{
    match v {
        serde_json::Value::Null => JsonVal::Null,
        serde_json::Value::Bool(b) => JsonVal::Bool(*b),
        serde_json::Value::Number(n) => JsonVal::Num(n.clone()),
        serde_json::Value::String(s) => JsonVal::Str(s.clone()),
        serde_json::Value::Array(a) => JsonVal::Arr(a.iter().map(value_to_json).collect()),
        serde_json::Value::Object(o) => JsonVal::Obj(
            o.iter().map(|(k, x)| (k.clone(), value_to_json(x))).collect(),
        ),
    }
}

/// Relies on the `serde_json::Value` constructors: rebuilds a serde value
/// from the library's tree, one variant at a time. Nothing is promised of
/// the result: the backing map sorts object entries and collapses
/// duplicate keys, so the entry sequence of the input is not preserved.
/// Used only by the serialisers below, whose outputs are named as
/// functions of the document's content.
#[verifier::external_body]
fn json_to_value(j: &JsonVal) -> serde_json::Value {
    match j {
        JsonVal::Null => serde_json::Value::Null,
        JsonVal::Bool(b) => serde_json::Value::Bool(*b),
        JsonVal::Num(n) => serde_json::Value::Number(n.clone()),
        JsonVal::Str(s) => serde_json::Value::String(s.clone()),
        JsonVal::Arr(items) => serde_json::Value::Array(items.iter().map(json_to_value).collect()),
        JsonVal::Obj(es) => serde_json::Value::Object(
            es.iter().map(|(k, x)| (k.clone(), json_to_value(x))).collect(),
        ),
    }
}

/// Relies on `serde_json::from_str::<serde_json::Value>`: succeeds exactly
/// on valid JSON text and yields the text's document, here converted to the
/// library's tree by `value_to_json`. The error carries serde's message.
#[verifier::external_body]
pub fn json_parse(s: &str) -> (r: Result<JsonVal, String>)
    ensures
        r is Ok <==> json_of(s@) is Some,
        r matches Ok(j) ==> json_of(s@) == Option::Some(j@),
{
    match serde_json::from_str::<serde_json::Value>(s) {
        Ok(v) => Ok(value_to_json(&v)),
        Err(e) => Err(format!("{}", e)),
    }
}

/// Relies on `serde_json::to_string_pretty`: pretty-prints the document.
/// Serialising a tree of string-keyed maps cannot fail, so the fallback
/// arm is never taken.
#[verifier::external_body]
pub fn json_pretty_str(j: &JsonVal) -> (r: String)
    ensures
        r@ == json_pretty(j@),
{
    let v = json_to_value(j);
    serde_json::to_string_pretty(&v).unwrap_or_default()
}

/// Relies on `serde_json::to_string`: prints the document compactly.
/// Serialising a tree of string-keyed maps cannot fail, so the fallback
/// arm is never taken.
#[verifier::external_body]
pub fn json_min_str(j: &JsonVal) -> (r: String)
    ensures
        r@ == json_min(j@),
{
    let v = json_to_value(j);
    serde_json::to_string(&v).unwrap_or_default()
}

/// A structural copy of a document.
#[verifier::loop_isolation(false)]
pub fn clone_val(v: &JsonVal) -> (r: JsonVal)
    ensures
        r@ == v@,
    decreases v,
{
    match v {
        JsonVal::Null => JsonVal::Null,
        JsonVal::Bool(b) => JsonVal::Bool(*b),
        JsonVal::Num(n) => JsonVal::Num(number_clone(n)),
        JsonVal::Str(s) => JsonVal::Str(s.clone()),
        JsonVal::Arr(items) => {
            proof {
                assert(*v == JsonVal::Arr(*items));
            }
            let mut out: Vec<JsonVal> = Vec::new();
            let mut i: usize = 0;
            while i < items.len()
                invariant
                    i <= items@.len(),
                    out@.len() == i as int,
                    forall|j: int| 0 <= j < i ==> (#[trigger] out@[j])@ == items@[j]@,
                decreases items@.len() - i,
            {
                proof {
                    assert(decreases_to!(*items => items@));
                    assert(decreases_to!(items@ => items@[i as int]));
                }
                let c = clone_val(&items[i]);
                out.push(c);
                i += 1;
            }
            let r = JsonVal::Arr(out);
            proof {
                lemma_arr_view(out);
                lemma_arr_view(*items);
                assert(Seq::new(out@.len(), |i: int| out@[i]@) =~~= Seq::new(
                    items@.len(),
                    |i: int| items@[i]@,
                ));
            }
            r
        },
        JsonVal::Obj(entries) => {
            proof {
                assert(*v == JsonVal::Obj(*entries));
            }
            let mut out: Vec<(String, JsonVal)> = Vec::new();
            let mut i: usize = 0;
            while i < entries.len()
                invariant
                    i <= entries@.len(),
                    out@.len() == i as int,
                    forall|j: int|
                        0 <= j < i ==> (#[trigger] out@[j]).0@ == entries@[j].0@ && out@[j].1@
                            == entries@[j].1@,
                decreases entries@.len() - i,
            {
                let k = entries[i].0.clone();
                proof {
                    assert(decreases_to!(*entries => entries@));
                    assert(decreases_to!(entries@ => entries@[i as int]));
                }
                let c = clone_val(&entries[i].1);
                out.push((k, c));
                i += 1;
            }
            let r = JsonVal::Obj(out);
            proof {
                lemma_obj_view(out);
                lemma_obj_view(*entries);
                assert(entries_view(out@) =~~= entries_view(entries@));
            }
            r
        },
    }
}

/// Finds the first entry with the given key in an object's entry vector.
pub fn obj_find(entries: &Vec<(String, JsonVal)>, key: &str) -> (r: Option<usize>)
    ensures
        r is Some <==> obj_has_key(entries_view(entries@), key@),
        r matches Some(i) ==> i as int == obj_index_of(entries_view(entries@), key@) && (i as int)
            < entries@.len(),
{
    let ghost ev = entries_view(entries@);
    proof {
        assert(ev.skip(0) =~~= ev);
    }
    let mut i: usize = 0;
    while i < entries.len()
        invariant
            i <= entries@.len(),
            ev == entries_view(entries@),
            obj_lookup(ev, key@) == obj_lookup(ev.skip(i as int), key@),
            obj_index_of(ev, key@) == i + obj_index_of(ev.skip(i as int), key@),
        decreases entries@.len() - i,
    {
        proof {
            assert(ev.skip(i as int)[0] == ev[i as int]);
        }
        if str_eq(entries[i].0.as_str(), key) {
            return Option::Some(i);
        }
        proof {
            assert(ev.skip(i as int).drop_first() =~~= ev.skip(i as int + 1));
        }
        i += 1;
    }
    proof {
        assert(ev.skip(i as int) =~~= Seq::<(Seq<char>, JsonData)>::empty());
    }
    Option::None
}

/// Whether a value is an object.
pub fn is_obj_val(v: &JsonVal) -> (r: bool)
    ensures
        r == (v@ is Obj),
{
    match v {
        JsonVal::Obj(_) => true,
        _ => false,
    }
}

/// Deep merge of two documents. Where both sides hold an object at a key
/// the merge recurses; otherwise the overlay's value replaces the base's;
/// keys found only in the overlay are appended; when either argument is
/// not an object the base is returned unchanged.
#[verifier::loop_isolation(false)]
pub fn deep_merge_json(base: &JsonVal, overlay: &JsonVal) -> (r: JsonVal)
    ensures
        r@ == spec_deep_merge(base@, overlay@),
    decreases overlay,
{
    match base {
        JsonVal::Obj(bs) => {
            match overlay {
                JsonVal::Obj(os) => {
                    let ghost bsv = entries_view(bs@);
                    let ghost osv = entries_view(os@);
                    let ghost merged_first = merged_base_entries(bsv, osv);
                    proof {
                        assert(*base == JsonVal::Obj(*bs));
                        assert(*overlay == JsonVal::Obj(*os));
                        lemma_obj_view(*bs);
                        lemma_obj_view(*os);
                        assert(base@ == JsonData::Obj(bsv));
                        assert(overlay@ == JsonData::Obj(osv));
                    }
                    let mut out: Vec<(String, JsonVal)> = Vec::new();
                    let mut i: usize = 0;
                    proof {
                        assert(entries_view(out@) =~~= merged_first.take(0));
                    }
                    while i < bs.len()
                        invariant
                            i <= bs@.len(),
                            entries_view(out@) =~~= merged_first.take(i as int),
                        decreases bs@.len() - i,
                    {
                        let k = bs[i].0.clone();
                        proof {
                            assert(bsv[i as int] == (bs@[i as int].0@, bs@[i as int].1@));
                            lemma_merge_guard(osv, k@);
                        }
                        match obj_find(os, k.as_str()) {
                            Option::Some(j) => {
                                let both = is_obj_val(&bs[i].1) && is_obj_val(&os[j].1);
                                proof {
                                    assert(osv[j as int] == (os@[j as int].0@, os@[j as int].1@));
                                }
                                if both {
                                    let m = deep_merge_json(&bs[i].1, &os[j].1);
                                    out.push((k, m));
                                } else {
                                    let c = clone_val(&os[j].1);
                                    out.push((k, c));
                                }
                            },
                            Option::None => {
                                let c = clone_val(&bs[i].1);
                                out.push((k, c));
                            },
                        }
                        i += 1;
                        proof {
                            assert(merged_first.take(i as int) =~~= merged_first.take(
                                i as int - 1,
                            ).push(merged_first[i as int - 1]));
                            assert(entries_view(out@) =~~= merged_first.take(i as int));
                        }
                    }
                    let mut j2: usize = 0;
                    proof {
                        assert(merged_first.take(bs@.len() as int) =~~= merged_first);
                        assert(novel_entries(osv.take(0), bsv) =~~= Seq::<(
                            Seq<char>,
                            JsonData,
                        )>::empty());
                        assert(entries_view(out@) =~~= merged_first + novel_entries(
                            osv.take(0),
                            bsv,
                        ));
                    }
                    while j2 < os.len()
                        invariant
                            j2 <= os@.len(),
                            entries_view(out@) =~~= merged_first + novel_entries(
                                osv.take(j2 as int),
                                bsv,
                            ),
                        decreases os@.len() - j2,
                    {
                        let ghost out_before = out@;
                        let absent = obj_find(bs, os[j2].0.as_str());
                        proof {
                            assert(osv[j2 as int] == (os@[j2 as int].0@, os@[j2 as int].1@));
                            assert(osv.take(j2 as int).push(osv[j2 as int]) =~~= osv.take(
                                j2 as int + 1,
                            ));
                            lemma_novel_snoc(osv.take(j2 as int), osv[j2 as int], bsv);
                        }
                        match absent {
                            Option::Some(_) => {
                                proof {
                                    assert(obj_has_key(bsv, osv[j2 as int].0));
                                    assert(novel_entries(osv.take(j2 as int + 1), bsv)
                                        == novel_entries(osv.take(j2 as int), bsv));
                                }
                            },
                            Option::None => {
                                let k2 = os[j2].0.clone();
                                let c = clone_val(&os[j2].1);
                                out.push((k2, c));
                                proof {
                                    assert(!obj_has_key(bsv, osv[j2 as int].0));
                                    assert(out@ == out_before.push((k2, c)));
                                    assert(entries_view(out@) =~~= entries_view(
                                        out_before,
                                    ).push((k2@, c@)));
                                    assert((k2@, c@) == osv[j2 as int]);
                                    assert(novel_entries(osv.take(j2 as int + 1), bsv)
                                        == novel_entries(osv.take(j2 as int), bsv) + seq![
                                        osv[j2 as int],
                                    ]);
                                    assert(entries_view(out@) =~~= merged_first + novel_entries(
                                        osv.take(j2 as int + 1),
                                        bsv,
                                    ));
                                }
                            },
                        }
                        j2 += 1;
                        proof {
                            assert(entries_view(out@) =~~= merged_first + novel_entries(
                                osv.take(j2 as int),
                                bsv,
                            ));
                        }
                    }
                    let r = JsonVal::Obj(out);
                    proof {
                        lemma_obj_view(out);
                        assert(osv.take(os@.len() as int) =~~= osv);
                        assert(entries_view(out@) =~~= merged_first + novel_entries(osv, bsv));
                        assert(r@ =~~= spec_deep_merge(base@, overlay@));
                    }
                    r
                },
                _ => clone_val(base),
            }
        },
        _ => clone_val(base),
    }
}

/// Prunes empty values: object entries whose value prunes to null or to an
/// empty object are dropped, recursively; arrays and scalars are kept.
#[verifier::loop_isolation(false)]
pub fn clean_empty_values(v: &JsonVal) -> (r: JsonVal)
    ensures
        r@ == spec_prune(v@),
    decreases v,
{
    match v {
        JsonVal::Obj(entries) => {
            let ghost ev = entries_view(entries@);
            let ghost mapped = pruned_entries(ev);
            proof {
                assert(*v == JsonVal::Obj(*entries));
                lemma_obj_view(*entries);
                assert(v@ == JsonData::Obj(ev));
            }
            let mut out: Vec<(String, JsonVal)> = Vec::new();
            let mut i: usize = 0;
            proof {
                assert(entries_view(out@) =~~= kept_entries(mapped.take(0)));
            }
            while i < entries.len()
                invariant
                    i <= entries@.len(),
                    entries_view(out@) =~~= kept_entries(mapped.take(i as int)),
                decreases entries@.len() - i,
            {
                let pv = clean_empty_values(&entries[i].1);
                let keep = match &pv {
                    JsonVal::Null => false,
                    JsonVal::Obj(es2) => es2.len() > 0,
                    _ => true,
                };
                proof {
                    assert(ev[i as int] == (entries@[i as int].0@, entries@[i as int].1@));
                    assert(keep == keep_entry(mapped[i as int].1));
                    assert(mapped.take(i as int).push(mapped[i as int]) =~~= mapped.take(
                        i as int + 1,
                    ));
                    lemma_kept_snoc(mapped.take(i as int), mapped[i as int]);
                }
                if keep {
                    let k = entries[i].0.clone();
                    out.push((k, pv));
                }
                i += 1;
                proof {
                    assert(entries_view(out@) =~~= kept_entries(mapped.take(i as int)));
                }
            }
            let r = JsonVal::Obj(out);
            proof {
                lemma_obj_view(out);
                assert(mapped.take(ev.len() as int) =~~= mapped);
                assert(entries_view(out@) =~~= kept_entries(mapped));
                assert(r@ =~~= spec_prune(v@));
            }
            r
        },
        _ => clone_val(v),
    }
}

/// A field read with a legacy fallback: the current key is probed first,
/// then the alternate legacy key.
pub open spec fn spec_compat_field(v: JsonData, snake: Seq<char>, camel: Seq<char>) -> Option<
    JsonData,
> {
    match v {
        JsonData::Obj(es) => match obj_lookup(es, snake) {
            Option::Some(x) => Option::Some(x),
            Option::None => obj_lookup(es, camel),
        },
        _ => Option::None,
    }
}

/// The string at a compat field, or the default when the field is missing
/// or not a string.
pub open spec fn spec_get_str_compat(
    v: JsonData,
    snake: Seq<char>,
    camel: Seq<char>,
    default: Seq<char>,
) -> Seq<char> {
    match spec_compat_field(v, snake, camel) {
        Option::Some(JsonData::Str(t)) => t,
        _ => default,
    }
}

/// The string at a compat field, when present.
pub open spec fn spec_get_opt_str_compat(v: JsonData, snake: Seq<char>, camel: Seq<char>) -> Option<
    Seq<char>,
> {
    match spec_compat_field(v, snake, camel) {
        Option::Some(JsonData::Str(t)) => Option::Some(t),
        _ => Option::None,
    }
}

/// The boolean at a compat field, or the default when the field is missing
/// or not a boolean.
pub open spec fn spec_get_bool_compat(
    v: JsonData,
    snake: Seq<char>,
    camel: Seq<char>,
    default: bool,
) -> bool {
    match spec_compat_field(v, snake, camel) {
        Option::Some(JsonData::Bool(b)) => b,
        _ => default,
    }
}

/// Reads a field under its current key, falling back to its legacy key.
pub fn compat_field<'a>(value: &'a JsonVal, snake_key: &str, camel_key: &str) -> (r: Option<
    &'a JsonVal,
>)
    ensures
        r is Some <==> spec_compat_field(value@, snake_key@, camel_key@) is Some,
        r matches Some(x) ==> Option::Some(x@) == spec_compat_field(
            value@,
            snake_key@,
            camel_key@,
        ),
{
    match value {
        JsonVal::Obj(entries) => {
            proof {
                assert(*value == JsonVal::Obj(*entries));
                lemma_obj_view(*entries);
                assert(value@ == JsonData::Obj(entries_view(entries@)));
            }
            match obj_find(entries, snake_key) {
                Option::Some(i) => {
                    proof {
                        lemma_obj_index(entries_view(entries@), snake_key@);
                    }
                    Option::Some(&entries[i].1)
                },
                Option::None => {
                    match obj_find(entries, camel_key) {
                        Option::Some(i) => {
                            proof {
                                lemma_obj_index(entries_view(entries@), camel_key@);
                            }
                            Option::Some(&entries[i].1)
                        },
                        Option::None => Option::None,
                    }
                },
            }
        },
        _ => Option::None,
    }
}

/// Gets a string field with backward compatibility between the current and
/// the legacy key name.
pub fn get_str_compat(value: &JsonVal, snake_key: &str, camel_key: &str, default: &str) -> (r:
    String)
    ensures
        r@ == spec_get_str_compat(value@, snake_key@, camel_key@, default@),
{
    match compat_field(value, snake_key, camel_key) {
        Option::Some(JsonVal::Str(s)) => s.clone(),
        _ => default.to_owned(),
    }
}

/// Gets an optional string field with backward compatibility.
pub fn get_opt_str_compat(value: &JsonVal, snake_key: &str, camel_key: &str) -> (r: Option<String>)
    ensures
        r is Some <==> spec_get_opt_str_compat(value@, snake_key@, camel_key@) is Some,
        r matches Some(s) ==> Option::Some(s@) == spec_get_opt_str_compat(
            value@,
            snake_key@,
            camel_key@,
        ),
{
    match compat_field(value, snake_key, camel_key) {
        Option::Some(JsonVal::Str(s)) => Option::Some(s.clone()),
        _ => Option::None,
    }
}

proof fn lemma_key_present(es: Seq<(Seq<char>, JsonData)>, i: int)
    requires
        0 <= i < es.len(),
    ensures
        obj_has_key(es, es[i].0),
    decreases es.len(),
{
    if es[0].0 == es[i].0 {
    } else {
        lemma_key_present(es.drop_first(), i - 1);
        assert(es.drop_first()[i - 1] == es[i]);
    }
}

proof fn lemma_novel_all_present(
    os: Seq<(Seq<char>, JsonData)>,
    bs: Seq<(Seq<char>, JsonData)>,
)
    requires
        forall|i: int| 0 <= i < os.len() ==> obj_has_key(bs, (#[trigger] os[i]).0),
    ensures
        novel_entries(os, bs) == Seq::<(Seq<char>, JsonData)>::empty(),
    decreases os.len(),
{
    if os.len() > 0 {
        assert(obj_has_key(bs, os[0].0));
        assert(forall|i: int|
            0 <= i < os.drop_first().len() ==> obj_has_key(
                bs,
                (#[trigger] os.drop_first()[i]).0,
            )) by {
            assert(forall|i: int|
                0 <= i < os.drop_first().len() ==> os.drop_first()[i] == os[i + 1]);
        }
        lemma_novel_all_present(os.drop_first(), bs);
    }
}

/// Law: merging any document with an empty object overlay leaves it
/// unchanged.
pub proof fn lemma_merge_empty_overlay(b: JsonData)
    ensures
        spec_deep_merge(b, JsonData::Obj(Seq::empty())) == b,
{
    match b {
        JsonData::Obj(bs) => {
            let os = Seq::<(Seq<char>, JsonData)>::empty();
            assert(novel_entries(os, bs) =~~= Seq::<(Seq<char>, JsonData)>::empty());
            let m = merged_base_entries(bs, os);
            assert forall|i: int| 0 <= i < bs.len() implies m[i] == bs[i] by {
                assert(m[i] == (bs[i].0, bs[i].1));
            }
            assert(m + novel_entries(os, bs) =~~= bs);
            assert(spec_deep_merge(b, JsonData::Obj(os)) =~~= b);
        },
        _ => {},
    }
}

/// Law: deep-merging a pruned document with an empty object gives the
/// pruned document back.
pub proof fn lemma_merge_pruned_empty(x: JsonData)
    ensures
        spec_deep_merge(spec_prune(x), JsonData::Obj(Seq::empty())) == spec_prune(x),
{
    lemma_merge_empty_overlay(spec_prune(x));
}

/// Law: deep-merging a well-formed document with itself changes nothing.
pub proof fn lemma_merge_self(x: JsonData)
    requires
        json_wf(x),
    ensures
        spec_deep_merge(x, x) == x,
    decreases x,
{
    match x {
        JsonData::Obj(es) => {
            assert forall|i: int| 0 <= i < es.len() implies obj_has_key(
                es,
                (#[trigger] es[i]).0,
            ) by {
                lemma_key_present(es, i);
            }
            lemma_novel_all_present(es, es);
            let m = merged_base_entries(es, es);
            assert forall|i: int| 0 <= i < es.len() implies m[i] == es[i] by {
                lemma_key_present(es, i);
                lemma_obj_index(es, es[i].0);
                let idx = obj_index_of(es, es[i].0);
                assert(idx == i) by {
                    if idx > i {
                        assert(es[i].0 != es[i].0);
                    }
                }
                assert(json_wf(es[i].1));
                if es[i].1 is Obj {
                    lemma_merge_self(es[i].1);
                }
                assert(m[i] == (es[i].0, es[i].1));
            }
            assert(m + novel_entries(es, es) =~~= es);
            assert(spec_deep_merge(x, x) =~~= x);
        },
        _ => {},
    }
}


/// Gets a boolean field with backward compatibility.
pub fn get_bool_compat(value: &JsonVal, snake_key: &str, camel_key: &str, default: bool) -> (r:
    bool)
    ensures
        r == spec_get_bool_compat(value@, snake_key@, camel_key@, default),
{
    match compat_field(value, snake_key, camel_key) {
        Option::Some(JsonVal::Bool(b)) => *b,
        _ => default,
    }
}



} // verus!
