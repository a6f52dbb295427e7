//! Layered TOML text merging: a blank layer yields the other layer's text
//! unchanged; otherwise, per top-level key, the profile layer's table
//! replaces the common layer's wholesale. Parsing and rendering go through
//! a trusted boundary to the `toml` crate; a parsed document is modelled as
//! a map from top-level keys to the canonical rendering of their values.

use vstd::prelude::*;
use crate::errors::CfgError;
use crate::strutil::all_ws;
use crate::strutil::is_blank;

verus! {

/// Declares the `toml` map type, the backing of `toml::Table`.
#[verifier::external_type_specification]
#[verifier::external_body]
#[verifier::reject_recursive_types(K)]
#[verifier::reject_recursive_types(V)]
pub struct ExTomlMap<K, V>(toml::map::Map<K, V>);

/// Declares `toml::Value`, a parsed TOML value.
#[verifier::external_type_specification]
#[verifier::external_body]
pub struct ExTomlValue(toml::Value);

/// The canonical rendering of a TOML value; a function of its content
/// alone.
pub uninterp spec fn toml_value_model(v: toml::Value) -> Seq<char>;

/// The contents of a table: each top-level key mapped to the canonical
/// rendering of its value.
pub uninterp spec fn table_model(t: toml::Table) -> Map<Seq<char>, Seq<char>>;

/// What `toml::from_str::<toml::Table>` yields on a text: the document's
/// model, or nothing when the text is not well-formed TOML. A function of
/// the text alone.
pub uninterp spec fn toml_doc(s: Seq<char>) -> Option<Map<Seq<char>, Seq<char>>>;

/// The table can be rendered back to TOML text: serialisation fails only
/// on shapes that cannot come out of the parser (for example a hand-built
/// invalid datetime), so parsed tables have this and insertion of
/// renderable values keeps it.
pub uninterp spec fn renderable(t: toml::Table) -> bool;

/// The value can be rendered back to TOML text; every value taken out of a
/// parsed table has this.
pub uninterp spec fn value_renderable(v: toml::Value) -> bool;

/// The text `toml::to_string_pretty` prints for a table with the given
/// document; a function of the document alone.
pub uninterp spec fn toml_render(m: Map<Seq<char>, Seq<char>>) -> Seq<char>;

/// The document held by a vector of owned entries, later pairs overriding
/// earlier ones.
pub open spec fn pairs_model(s: Seq<(String, toml::Value)>) -> Map<Seq<char>, Seq<char>>
    decreases s.len(),
{
    if s.len() == 0 {
        Map::empty()
    } else {
        pairs_model(s.drop_last()).insert(s.last().0@, toml_value_model(s.last().1))
    }
}

/// Relies on `toml::from_str::<toml::Table>`: succeeds exactly on
/// well-formed TOML text and yields the text's document; the error carries
/// the parser's message.
#[verifier::external_body]
pub fn toml_parse_table(s: &str) -> (r: Result<toml::Table, String>)
    ensures
        r is Ok <==> toml_doc(s@) is Some,
        r matches Ok(t) ==> toml_doc(s@) == Option::Some(table_model(t)) && renderable(t),
{
    toml::from_str::<toml::Table>(s).map_err(|e| e.to_string())
}

/// Relies on `toml::map::Map::into_iter`: hands the table's entries out as
/// owned pairs with pairwise-distinct keys holding exactly the table's
/// contents.
#[verifier::external_body]
pub fn table_entries(t: toml::Table) -> (r: Vec<(String, toml::Value)>)
    ensures
        pairs_model(r@) == table_model(t),
        forall|i: int, j: int|
            #![trigger r@[i].0, r@[j].0]
            0 <= i < j < r@.len() ==> r@[i].0@ != r@[j].0@,
        renderable(t) ==> forall|i: int|
            0 <= i < r@.len() ==> value_renderable((#[trigger] r@[i]).1),
{
    t.into_iter().collect()
}

/// Relies on `toml::map::Map::insert`: adds or replaces the entry for the
/// key.
#[verifier::external_body]
pub fn table_insert(t: &mut toml::Table, k: String, v: toml::Value)
    ensures
        table_model(*final(t)) == table_model(*old(t)).insert(k@, toml_value_model(v)),
        (renderable(*old(t)) && value_renderable(v)) ==> renderable(*final(t)),
{
    t.insert(k, v);
}

/// Relies on `toml::to_string_pretty`: renders a table as TOML text that
/// parses back to the same document, the crate's round-trip guarantee; the
/// printed text is a function of the document alone, named `toml_render`.
/// A renderable table (anything the parser can produce) always succeeds;
/// otherwise the error carries the serialiser's message.
#[verifier::external_body]
pub fn table_to_string_pretty(t: &toml::Table) -> (r: Result<String, String>)
    ensures
        renderable(*t) ==> r is Ok,
        r matches Ok(s) ==> toml_doc(s@) == Option::Some(table_model(*t)) && s@ == toml_render(
            table_model(*t),
        ),
{
    toml::to_string_pretty(t).map_err(|e| e.to_string())
}

/// The merged document: the common layer's entries with every top-level
/// key of the profile layer overriding wholesale.
pub open spec fn merged_doc(
    common: Map<Seq<char>, Seq<char>>,
    profile: Map<Seq<char>, Seq<char>>,
) -> Map<Seq<char>, Seq<char>> {
    common.union_prefer_right(profile)
}

/// Law: in the merged document keys of the profile layer always win, keys
/// only in the common layer survive unchanged, and no other keys appear.
pub proof fn lemma_layered_override(
    common: Map<Seq<char>, Seq<char>>,
    profile: Map<Seq<char>, Seq<char>>,
)
    ensures
        forall|k: Seq<char>|
            profile.dom().contains(k) ==> #[trigger] merged_doc(common, profile)[k] == profile[k],
        forall|k: Seq<char>|
            common.dom().contains(k) && !profile.dom().contains(k) ==> #[trigger] merged_doc(
                common,
                profile,
            )[k] == common[k],
        forall|k: Seq<char>|
            #[trigger] merged_doc(common, profile).dom().contains(k) <==> (common.dom().contains(
                k,
            ) || profile.dom().contains(k)),
{
}

/// Merges two TOML config texts, the profile layer taking precedence per
/// top-level key. A blank layer yields the other text unchanged; when both
/// layers parse the merge succeeds and the result is the rendering of the
/// merged document; a layer that fails to parse yields `ParseError`.
#[verifier::loop_isolation(false)]
pub fn merge_toml_configs(common: &str, profile: &str) -> (r: Result<String, CfgError>)
    ensures
        all_ws(common@) ==> (r matches Ok(s) && s@ == profile@),
        (!all_ws(common@) && all_ws(profile@)) ==> (r matches Ok(s) && s@ == common@),
        (!all_ws(common@) && !all_ws(profile@)) ==> {
            &&& (toml_doc(common@) is Some && toml_doc(profile@) is Some) <==> r is Ok
            &&& (r matches Ok(s) ==> toml_doc(s@) == Option::Some(
                merged_doc(toml_doc(common@).unwrap(), toml_doc(profile@).unwrap()),
            ) && s@ == toml_render(
                merged_doc(toml_doc(common@).unwrap(), toml_doc(profile@).unwrap()),
            ))
            &&& (r matches Err(e) ==> e matches CfgError::ParseError(_))
        },
{
    if is_blank(common) {
        return Result::Ok(profile.to_owned());
    }
    if is_blank(profile) {
        return Result::Ok(common.to_owned());
    }
    let mut merged = match toml_parse_table(common) {
        Result::Ok(t) => t,
        Result::Err(m) => {
            return Result::Err(CfgError::ParseError(m));
        },
    };
    let profile_table = match toml_parse_table(profile) {
        Result::Ok(t) => t,
        Result::Err(m) => {
            return Result::Err(CfgError::ParseError(m));
        },
    };
    let ghost tm_common = table_model(merged);
    let ghost tm_profile = table_model(profile_table);
    let entries = table_entries(profile_table);
    let mut i: usize = 0;
    proof {
        assert(pairs_model(entries@.take(0)) =~= Map::<Seq<char>, Seq<char>>::empty());
        assert(table_model(merged) =~= tm_common.union_prefer_right(
            pairs_model(entries@.take(0)),
        ));
    }
    while i < entries.len()
        invariant
            i <= entries@.len(),
            table_model(merged) == tm_common.union_prefer_right(pairs_model(entries@.take(i as int))),
            renderable(merged),
        decreases entries@.len() - i,
    {
        let k = entries[i].0.clone();
        let v = toml_value_clone(&entries[i].1);
        table_insert(&mut merged, k, v);
        i += 1;
        proof {
            assert(entries@.take(i as int).drop_last() =~= entries@.take(i as int - 1));
            assert(entries@.take(i as int).last() == entries@[i as int - 1]);
            assert(table_model(merged) =~= tm_common.union_prefer_right(
                pairs_model(entries@.take(i as int)),
            ));
        }
    }
    proof {
        assert(entries@.take(entries@.len() as int) =~= entries@);
        assert(table_model(merged) == tm_common.union_prefer_right(tm_profile));
    }
    match table_to_string_pretty(&merged) {
        Result::Ok(s) => Result::Ok(s),
        Result::Err(m) => Result::Err(CfgError::ParseError(m)),
    }
}

/// Relies on `<toml::Value as Clone>::clone`: the copy has the same
/// content as the original.
#[verifier::external_body]
pub fn toml_value_clone(v: &toml::Value) -> (r: toml::Value)
    ensures
        toml_value_model(r) == toml_value_model(*v),
        value_renderable(*v) ==> value_renderable(r),
{
    v.clone()
}

/// Validates a common-config text: blank is accepted as an empty layer;
/// anything else must parse as TOML.
pub fn validate_common_config(config: &str) -> (r: Result<(), CfgError>)
    ensures
        all_ws(config@) ==> r is Ok,
        !all_ws(config@) ==> {
            &&& (r is Ok <==> toml_doc(config@) is Some)
            &&& (r matches Err(e) ==> e matches CfgError::ParseError(_))
        },
{
    if is_blank(config) {
        return Result::Ok(());
    }
    match toml_parse_table(config) {
        Result::Ok(_) => Result::Ok(()),
        Result::Err(m) => Result::Err(CfgError::ParseError(m)),
    }
}

} // verus!
