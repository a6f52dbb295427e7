//! Schema-tolerant record codec for the second tool family: every field
//! read probes the current snake_case key first and falls back to its
//! legacy camelCase name, so records written by an older schema version
//! keep decoding; encoding writes the current keys only.

use vstd::prelude::*;
use crate::apply::json_field;
use crate::apply::field_of;
use crate::json::clone_val;
use crate::json::compat_field;
use crate::json::entries_view;
use crate::json::get_bool_compat;
use crate::json::get_opt_str_compat;
use crate::json::get_str_compat;
use crate::json::lemma_obj_view;
use crate::json::spec_compat_field;
use crate::json::spec_get_bool_compat;
use crate::json::spec_get_opt_str_compat;
use crate::json::spec_get_str_compat;
use crate::json::JsonData;
use crate::json::JsonVal;

verus! {

/// One stored config record of the second family.
#[derive(Debug, PartialEq)]
pub struct OhMyOpenCodeConfig {
    pub id: String,
    pub name: String,
    pub is_applied: bool,
    pub agents: Option<JsonVal>,
    pub other_fields: Option<JsonVal>,
    pub created_at: Option<String>,
    pub updated_at: Option<String>,
}

/// The family's singleton global-config record.
#[derive(Debug, PartialEq)]
pub struct OhMyOpenCodeGlobalConfig {
    pub id: String,
    pub schema: Option<String>,
    pub sisyphus_agent: Option<JsonVal>,
    pub disabled_agents: Option<Vec<String>>,
    pub disabled_mcps: Option<Vec<String>>,
    pub disabled_hooks: Option<Vec<String>>,
    pub lsp: Option<JsonVal>,
    pub experimental: Option<JsonVal>,
    pub other_fields: Option<JsonVal>,
    pub updated_at: Option<String>,
}

/// A JSON value read as a list of strings: the array's texts when every
/// element is a string, nothing otherwise.
pub open spec fn spec_string_list(d: JsonData) -> Option<Seq<Seq<char>>> {
    match d {
        JsonData::Arr(items) => {
            if forall|i: int| 0 <= i < items.len() ==> (#[trigger] items[i]) is Str {
                Option::Some(Seq::new(items.len(), |i: int| items[i]->Str_0))
            } else {
                Option::None
            }
        },
        _ => Option::None,
    }
}

/// Reads a JSON value as a list of strings.
#[verifier::loop_isolation(false)]
pub fn string_list_of(v: &JsonVal) -> (r: Option<Vec<String>>)
    ensures
        r is Some <==> spec_string_list(v@) is Some,
        r matches Some(vs) ==> Option::Some(
            Seq::new(vs@.len(), |i: int| vs@[i]@),
        ) == spec_string_list(v@),
{
    match v {
        JsonVal::Arr(items) => {
            proof {
                assert(*v == JsonVal::Arr(*items));
                crate::json::lemma_arr_view(*items);
            }
            let mut out: Vec<String> = Vec::new();
            let mut i: usize = 0;
            while i < items.len()
                invariant
                    i <= items@.len(),
                    out@.len() == i as int,
                    forall|j: int| 0 <= j < i ==> (#[trigger] items@[j]@) is Str,
                    forall|j: int| 0 <= j < i ==> (#[trigger] out@[j])@ == items@[j]@->Str_0,
                decreases items@.len() - i,
            {
                match &items[i] {
                    JsonVal::Str(s) => {
                        out.push(s.clone());
                    },
                    _ => {
                        proof {
                            assert(!(items@[i as int]@ is Str));
                            assert(v@->Arr_0[i as int] == items@[i as int]@);
                        }
                        return Option::None;
                    },
                }
                i += 1;
            }
            proof {
                let arr = v@->Arr_0;
                assert(spec_string_list(v@) is Some);
                assert(Seq::new(out@.len(), |j: int| out@[j]@) =~~= Seq::new(
                    arr.len(),
                    |j: int| arr[j]->Str_0,
                ));
            }
            Option::Some(out)
        },
        _ => Option::None,
    }
}

/// The compat string-list field: present and well-formed, or nothing.
pub open spec fn spec_compat_string_list(d: JsonData, snake: Seq<char>, camel: Seq<char>) -> Option<
    Seq<Seq<char>>,
> {
    match spec_compat_field(d, snake, camel) {
        Option::Some(x) => spec_string_list(x),
        Option::None => Option::None,
    }
}

/// Reads a compat field as a list of strings.
fn compat_string_list(v: &JsonVal, snake: &str, camel: &str) -> (r: Option<Vec<String>>)
    ensures
        r is Some <==> spec_compat_string_list(v@, snake@, camel@) is Some,
        r matches Some(vs) ==> Option::Some(
            Seq::new(vs@.len(), |i: int| vs@[i]@),
        ) == spec_compat_string_list(v@, snake@, camel@),
{
    match compat_field(v, snake, camel) {
        Option::Some(x) => string_list_of(x),
        Option::None => Option::None,
    }
}

/// Reads an optional JSON subtree at a plain key.
fn opt_tree_at(v: &JsonVal, key: &str) -> (r: Option<JsonVal>)
    ensures
        r is Some <==> json_field(v@, key@) is Some,
        r matches Some(x) ==> Option::Some(x@) == json_field(v@, key@),
{
    match field_of(v, key) {
        Option::Some(x) => Option::Some(clone_val(x)),
        Option::None => Option::None,
    }
}

/// Reads an optional JSON subtree at a compat key pair.
fn opt_tree_compat(v: &JsonVal, snake: &str, camel: &str) -> (r: Option<JsonVal>)
    ensures
        r is Some <==> spec_compat_field(v@, snake@, camel@) is Some,
        r matches Some(x) ==> Option::Some(x@) == spec_compat_field(v@, snake@, camel@),
{
    match compat_field(v, snake, camel) {
        Option::Some(x) => Option::Some(clone_val(x)),
        Option::None => Option::None,
    }
}

/// Decodes a stored record of the second family with legacy-key fallback;
/// no field is required, every miss gets its documented default.
pub fn from_db_value(value: JsonVal) -> (r: OhMyOpenCodeConfig)
    ensures
        r.id@ == spec_get_str_compat(value@, "config_id"@, "configId"@, Seq::<char>::empty()),
        r.name@ == spec_get_str_compat(value@, "name"@, "name"@, "Unnamed Config"@),
        r.is_applied == spec_get_bool_compat(value@, "is_applied"@, "isApplied"@, false),
        r.agents is Some <==> json_field(value@, "agents"@) is Some,
        r.agents matches Some(x) ==> Option::Some(x@) == json_field(value@, "agents"@),
        r.other_fields is Some <==> spec_compat_field(value@, "other_fields"@, "otherFields"@)
            is Some,
        r.other_fields matches Some(x) ==> Option::Some(x@) == spec_compat_field(
            value@,
            "other_fields"@,
            "otherFields"@,
        ),
        opt_string_view(r.created_at) == spec_get_opt_str_compat(
            value@,
            "created_at"@,
            "createdAt"@,
        ),
        opt_string_view(r.updated_at) == spec_get_opt_str_compat(
            value@,
            "updated_at"@,
            "updatedAt"@,
        ),
{
    let empty = String::new();
    OhMyOpenCodeConfig {
        id: get_str_compat(&value, "config_id", "configId", empty.as_str()),
        name: get_str_compat(&value, "name", "name", "Unnamed Config"),
        is_applied: get_bool_compat(&value, "is_applied", "isApplied", false),
        agents: opt_tree_at(&value, "agents"),
        other_fields: opt_tree_compat(&value, "other_fields", "otherFields"),
        created_at: get_opt_str_compat(&value, "created_at", "createdAt"),
        updated_at: get_opt_str_compat(&value, "updated_at", "updatedAt"),
    }
}

/// The view of an optional string.
pub open spec fn opt_string_view(o: Option<String>) -> Option<Seq<char>> {
    match o {
        Option::Some(s) => Option::Some(s@),
        Option::None => Option::None,
    }
}

/// An optional string as a JSON value: the string, or null.
pub open spec fn opt_str_data(o: Option<Seq<char>>) -> JsonData {
    match o {
        Option::Some(s) => JsonData::Str(s),
        Option::None => JsonData::Null,
    }
}

/// An optional subtree as a JSON value: the subtree, or null.
pub open spec fn opt_tree_data(o: Option<JsonData>) -> JsonData {
    match o {
        Option::Some(d) => d,
        Option::None => JsonData::Null,
    }
}

/// The view of an optional subtree.
pub open spec fn opt_tree_view(o: Option<JsonVal>) -> Option<JsonData> {
    match o {
        Option::Some(d) => Option::Some(d@),
        Option::None => Option::None,
    }
}

/// Encodes a record of the second family for storage, under the current
/// key names; absent optional fields are written as null.
pub fn to_db_value(content: &OhMyOpenCodeConfig) -> (r: JsonVal)
    ensures
        r@ == JsonData::Obj(
            seq![
                ("config_id"@, JsonData::Str(content.id@)),
                ("name"@, JsonData::Str(content.name@)),
                ("is_applied"@, JsonData::Bool(content.is_applied)),
                ("agents"@, opt_tree_data(opt_tree_view(content.agents))),
                ("other_fields"@, opt_tree_data(opt_tree_view(content.other_fields))),
                ("created_at"@, opt_str_data(opt_string_view(content.created_at))),
                ("updated_at"@, opt_str_data(opt_string_view(content.updated_at))),
            ],
        ),
{
    let mut entries: Vec<(String, JsonVal)> = Vec::new();
    entries.push(("config_id".to_owned(), JsonVal::Str(content.id.clone())));
    entries.push(("name".to_owned(), JsonVal::Str(content.name.clone())));
    entries.push(("is_applied".to_owned(), JsonVal::Bool(content.is_applied)));
    entries.push(("agents".to_owned(), opt_val_or_null(&content.agents)));
    entries.push(("other_fields".to_owned(), opt_val_or_null(&content.other_fields)));
    entries.push(("created_at".to_owned(), opt_str_or_null(&content.created_at)));
    entries.push(("updated_at".to_owned(), opt_str_or_null(&content.updated_at)));
    proof {
        lemma_obj_view(entries);
        assert(entries_view(entries@) =~~= seq![
            ("config_id"@, JsonData::Str(content.id@)),
            ("name"@, JsonData::Str(content.name@)),
            ("is_applied"@, JsonData::Bool(content.is_applied)),
            ("agents"@, opt_tree_data(opt_tree_view(content.agents))),
            ("other_fields"@, opt_tree_data(opt_tree_view(content.other_fields))),
            ("created_at"@, opt_str_data(opt_string_view(content.created_at))),
            ("updated_at"@, opt_str_data(opt_string_view(content.updated_at))),
        ]);
    }
    JsonVal::Obj(entries)
}

/// An optional subtree, or JSON null.
fn opt_val_or_null(o: &Option<JsonVal>) -> (r: JsonVal)
    ensures
        r@ == opt_tree_data(opt_tree_view(*o)),
{
    match o {
        Option::Some(d) => clone_val(d),
        Option::None => JsonVal::Null,
    }
}

/// An optional string, or JSON null.
fn opt_str_or_null(o: &Option<String>) -> (r: JsonVal)
    ensures
        r@ == opt_str_data(opt_string_view(*o)),
{
    match o {
        Option::Some(s) => JsonVal::Str(s.clone()),
        Option::None => JsonVal::Null,
    }
}

/// The view of an optional string list.
pub open spec fn opt_list_view(o: Option<Vec<String>>) -> Option<Seq<Seq<char>>> {
    match o {
        Option::Some(v) => Option::Some(Seq::new(v@.len(), |i: int| v@[i]@)),
        Option::None => Option::None,
    }
}

/// Decodes the family's global-config record with legacy-key fallback.
pub fn global_config_from_db_value(value: JsonVal) -> (r: OhMyOpenCodeGlobalConfig)
    ensures
        r.id@ == spec_get_str_compat(value@, "config_id"@, "configId"@, "global"@),
        opt_string_view(r.schema) == (match json_field(value@, "schema"@) {
            Option::Some(JsonData::Str(t)) => Option::Some(t),
            _ => Option::<Seq<char>>::None,
        }),
        r.sisyphus_agent is Some <==> spec_compat_field(
            value@,
            "sisyphus_agent"@,
            "sisyphusAgent"@,
        ) is Some,
        r.sisyphus_agent matches Some(x) ==> Option::Some(x@) == spec_compat_field(
            value@,
            "sisyphus_agent"@,
            "sisyphusAgent"@,
        ),
        opt_list_view(r.disabled_agents) == spec_compat_string_list(
            value@,
            "disabled_agents"@,
            "disabledAgents"@,
        ),
        opt_list_view(r.disabled_mcps) == spec_compat_string_list(
            value@,
            "disabled_mcps"@,
            "disabledMcps"@,
        ),
        opt_list_view(r.disabled_hooks) == spec_compat_string_list(
            value@,
            "disabled_hooks"@,
            "disabledHooks"@,
        ),
        r.lsp is Some <==> json_field(value@, "lsp"@) is Some,
        r.lsp matches Some(x) ==> Option::Some(x@) == json_field(value@, "lsp"@),
        r.experimental is Some <==> json_field(value@, "experimental"@) is Some,
        r.experimental matches Some(x) ==> Option::Some(x@) == json_field(
            value@,
            "experimental"@,
        ),
        r.other_fields is Some <==> spec_compat_field(value@, "other_fields"@, "otherFields"@)
            is Some,
        r.other_fields matches Some(x) ==> Option::Some(x@) == spec_compat_field(
            value@,
            "other_fields"@,
            "otherFields"@,
        ),
        opt_string_view(r.updated_at) == spec_get_opt_str_compat(
            value@,
            "updated_at"@,
            "updatedAt"@,
        ),
{
    let schema: Option<String> = match field_of(&value, "schema") {
        Option::Some(JsonVal::Str(s)) => Option::Some(s.clone()),
        _ => Option::None,
    };
    OhMyOpenCodeGlobalConfig {
        id: get_str_compat(&value, "config_id", "configId", "global"),
        schema,
        sisyphus_agent: opt_tree_compat(&value, "sisyphus_agent", "sisyphusAgent"),
        disabled_agents: compat_string_list(&value, "disabled_agents", "disabledAgents"),
        disabled_mcps: compat_string_list(&value, "disabled_mcps", "disabledMcps"),
        disabled_hooks: compat_string_list(&value, "disabled_hooks", "disabledHooks"),
        lsp: opt_tree_at(&value, "lsp"),
        experimental: opt_tree_at(&value, "experimental"),
        other_fields: opt_tree_compat(&value, "other_fields", "otherFields"),
        updated_at: get_opt_str_compat(&value, "updated_at", "updatedAt"),
    }
}

/// Encodes the global-config record for storage under the current key
/// names; absent optional fields are written as null and string lists as
/// arrays of strings.
pub fn global_config_to_db_value(content: &OhMyOpenCodeGlobalConfig) -> (r: JsonVal)
    ensures
        r@ == JsonData::Obj(
            seq![
                ("config_id"@, JsonData::Str(content.id@)),
                ("schema"@, opt_str_data(opt_string_view(content.schema))),
                ("sisyphus_agent"@, opt_tree_data(opt_tree_view(content.sisyphus_agent))),
                ("disabled_agents"@, opt_list_data(opt_list_view(content.disabled_agents))),
                ("disabled_mcps"@, opt_list_data(opt_list_view(content.disabled_mcps))),
                ("disabled_hooks"@, opt_list_data(opt_list_view(content.disabled_hooks))),
                ("lsp"@, opt_tree_data(opt_tree_view(content.lsp))),
                ("experimental"@, opt_tree_data(opt_tree_view(content.experimental))),
                ("other_fields"@, opt_tree_data(opt_tree_view(content.other_fields))),
                ("updated_at"@, opt_str_data(opt_string_view(content.updated_at))),
            ],
        ),
{
    let mut entries: Vec<(String, JsonVal)> = Vec::new();
    entries.push(("config_id".to_owned(), JsonVal::Str(content.id.clone())));
    entries.push(("schema".to_owned(), opt_str_or_null(&content.schema)));
    entries.push(("sisyphus_agent".to_owned(), opt_val_or_null(&content.sisyphus_agent)));
    entries.push(("disabled_agents".to_owned(), opt_list_or_null(&content.disabled_agents)));
    entries.push(("disabled_mcps".to_owned(), opt_list_or_null(&content.disabled_mcps)));
    entries.push(("disabled_hooks".to_owned(), opt_list_or_null(&content.disabled_hooks)));
    entries.push(("lsp".to_owned(), opt_val_or_null(&content.lsp)));
    entries.push(("experimental".to_owned(), opt_val_or_null(&content.experimental)));
    entries.push(("other_fields".to_owned(), opt_val_or_null(&content.other_fields)));
    entries.push(("updated_at".to_owned(), opt_str_or_null(&content.updated_at)));
    proof {
        lemma_obj_view(entries);
        assert(entries_view(entries@) =~~= seq![
            ("config_id"@, JsonData::Str(content.id@)),
            ("schema"@, opt_str_data(opt_string_view(content.schema))),
            ("sisyphus_agent"@, opt_tree_data(opt_tree_view(content.sisyphus_agent))),
            ("disabled_agents"@, opt_list_data(opt_list_view(content.disabled_agents))),
            ("disabled_mcps"@, opt_list_data(opt_list_view(content.disabled_mcps))),
            ("disabled_hooks"@, opt_list_data(opt_list_view(content.disabled_hooks))),
            ("lsp"@, opt_tree_data(opt_tree_view(content.lsp))),
            ("experimental"@, opt_tree_data(opt_tree_view(content.experimental))),
            ("other_fields"@, opt_tree_data(opt_tree_view(content.other_fields))),
            ("updated_at"@, opt_str_data(opt_string_view(content.updated_at))),
        ]);
    }
    JsonVal::Obj(entries)
}

/// An optional string list as a JSON value: an array of strings, or null.
pub open spec fn opt_list_data(o: Option<Seq<Seq<char>>>) -> JsonData {
    match o {
        Option::Some(l) => JsonData::Arr(Seq::new(l.len(), |i: int| JsonData::Str(l[i]))),
        Option::None => JsonData::Null,
    }
}

/// An optional string list, or JSON null.
#[verifier::loop_isolation(false)]
fn opt_list_or_null(o: &Option<Vec<String>>) -> (r: JsonVal)
    ensures
        r@ == opt_list_data(opt_list_view(*o)),
{
    match o {
        Option::Some(list) => {
            let mut items: Vec<JsonVal> = Vec::new();
            let mut i: usize = 0;
            while i < list.len()
                invariant
                    i <= list@.len(),
                    items@.len() == i as int,
                    forall|j: int| 0 <= j < i ==> (#[trigger] items@[j])@ == JsonData::Str(
                        list@[j]@,
                    ),
                decreases list@.len() - i,
            {
                items.push(JsonVal::Str(list[i].clone()));
                i += 1;
            }
            proof {
                crate::json::lemma_arr_view(items);
                assert(Seq::new(items@.len(), |j: int| items@[j]@) =~~= Seq::new(
                    list@.len(),
                    |j: int| JsonData::Str(list@[j]@),
                ));
            }
            let r = JsonVal::Arr(items);
            proof {
                assert(*o == Option::Some(*list));
                let l = opt_list_view(*o).unwrap();
                assert(r@->Arr_0 =~~= Seq::new(l.len(), |i: int| JsonData::Str(l[i])));
                assert(r@ =~~= opt_list_data(opt_list_view(*o)));
            }
            r
        },
        Option::None => JsonVal::Null,
    }
}

} // verus!
