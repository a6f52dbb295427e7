//! The apply engine: splits a profile's settings payload into its auth
//! section and config text, merges the family's common layer under the
//! profile's own text, and produces the two destination files' contents.
//! The applied-flag transition happens only after the contents were
//! computed; a failure leaves the flags untouched.

use vstd::prelude::*;
use crate::errors::CfgError;
use crate::json::entries_view;
use crate::json::json_of;
use crate::json::json_parse;
use crate::json::json_pretty;
use crate::json::json_pretty_str;
use crate::json::lemma_obj_index;
use crate::json::lemma_obj_view;
use crate::json::obj_find;
use crate::json::obj_lookup;
use crate::json::JsonData;
use crate::json::JsonVal;
use crate::store::at_most_one_applied;
use crate::store::has_id;
use crate::store::ids_distinct;
use crate::store::same_record_core;
use crate::store::FamilyStore;
use crate::store::Profile;
use crate::strutil::all_ws;
use crate::strutil::is_blank;
use crate::toml_merge::merge_toml_configs;
use crate::toml_merge::merged_doc;
use crate::toml_merge::toml_doc;

verus! {

/// The contents an apply writes to the tool's two destination files.
#[derive(Debug, PartialEq)]
pub struct ConfigFiles {
    pub auth_json: String,
    pub config_toml: String,
}

/// The value at a top-level key, when the document is an object.
pub open spec fn json_field(d: JsonData, k: Seq<char>) -> Option<JsonData> {
    match d {
        JsonData::Obj(es) => obj_lookup(es, k),
        _ => Option::None,
    }
}

/// The auth section of a parsed settings payload: its `auth` field, or an
/// empty object when there is none.
pub open spec fn spec_auth_of(doc: JsonData) -> JsonData {
    match json_field(doc, "auth"@) {
        Option::Some(a) => a,
        Option::None => JsonData::Obj(Seq::empty()),
    }
}

/// The config text of a parsed settings payload: its `config` field when
/// that is a string, else empty text.
pub open spec fn spec_cfg_of(doc: JsonData) -> Seq<char> {
    match json_field(doc, "config"@) {
        Option::Some(JsonData::Str(t)) => t,
        _ => Seq::empty(),
    }
}

/// What rendering a settings payload against a common layer yields: the
/// pretty-printed auth section, and the config text merged under the
/// common layer when one is present and not blank.
pub open spec fn render_outcome(
    settings: Seq<char>,
    common: Option<Seq<char>>,
    r: Result<ConfigFiles, CfgError>,
) -> bool {
    &&& (json_of(settings) is None ==> (r matches Err(e) && e matches CfgError::ParseError(_)))
    &&& (r is Ok ==> json_of(settings) is Some)
    &&& (json_of(settings) is Some ==> ({
        let doc = json_of(settings).unwrap();
        let cfg = spec_cfg_of(doc);
        &&& (r matches Ok(f) ==> f.auth_json@ == json_pretty(spec_auth_of(doc)))
        &&& ((common is None || all_ws(common.unwrap())) ==> (r matches Ok(f) && f.config_toml@
            == cfg))
        &&& ((common is Some && !all_ws(common.unwrap())) ==> ({
            let ct = common.unwrap();
            &&& (all_ws(cfg) ==> (r matches Ok(f) && f.config_toml@ == ct))
            &&& (!all_ws(cfg) ==> ({
                &&& ((toml_doc(ct) is Some && toml_doc(cfg) is Some) ==> r is Ok)
                &&& ((toml_doc(ct) is None || toml_doc(cfg) is None) ==> (r matches Err(e) && e
                    matches CfgError::ParseError(_)))
                &&& (r matches Ok(f) ==> toml_doc(ct) is Some && toml_doc(cfg) is Some && toml_doc(
                    f.config_toml@,
                ) == Option::Some(merged_doc(toml_doc(ct).unwrap(), toml_doc(cfg).unwrap())))
                &&& (r matches Err(e) ==> e matches CfgError::ParseError(_))
            }))
        }))
    }))
}

/// The view of an optional common-layer text.
pub open spec fn opt_text_view(o: Option<String>) -> Option<Seq<char>> {
    match o {
        Option::Some(s) => Option::Some(s@),
        Option::None => Option::None,
    }
}

/// The common-layer text a family currently stores.
pub open spec fn store_common_text(s: FamilyStore) -> Option<Seq<char>> {
    match s.common_config {
        Option::Some(c) => Option::Some(c.config@),
        Option::None => Option::None,
    }
}

/// The value at a top-level key of a document.
pub fn field_of<'a>(v: &'a JsonVal, key: &str) -> (r: Option<&'a JsonVal>)
    ensures
        r is Some <==> json_field(v@, key@) is Some,
        r matches Some(x) ==> Option::Some(x@) == json_field(v@, key@),
{
    match v {
        JsonVal::Obj(entries) => {
            proof {
                assert(*v == JsonVal::Obj(*entries));
                lemma_obj_view(*entries);
            }
            match obj_find(entries, key) {
                Option::Some(i) => {
                    proof {
                        lemma_obj_index(entries_view(entries@), key@);
                    }
                    Option::Some(&entries[i].1)
                },
                Option::None => Option::None,
            }
        },
        _ => Option::None,
    }
}

/// Computes the destination files for one settings payload: the payload is
/// parsed (`ParseError` on malformed text), its auth section is
/// pretty-printed, and its config text is merged under the common layer
/// when that is present and not blank.
pub fn render_config_files(settings_config: &str, common: &Option<String>) -> (r: Result<
    ConfigFiles,
    CfgError,
>)
    ensures
        render_outcome(settings_config@, opt_text_view(*common), r),
{
    let parsed = match json_parse(settings_config) {
        Result::Ok(v) => v,
        Result::Err(m) => {
            return Result::Err(CfgError::ParseError(m));
        },
    };
    let auth_json = match field_of(&parsed, "auth") {
        Option::Some(a) => json_pretty_str(a),
        Option::None => {
            let empty_entries: Vec<(String, JsonVal)> = Vec::new();
            proof {
                lemma_obj_view(empty_entries);
                assert(entries_view(empty_entries@) =~~= Seq::<(Seq<char>, JsonData)>::empty());
            }
            let empty = JsonVal::Obj(empty_entries);
            json_pretty_str(&empty)
        },
    };
    let config_text: String = match field_of(&parsed, "config") {
        Option::Some(JsonVal::Str(t)) => t.clone(),
        _ => String::new(),
    };
    let config_toml = match common {
        Option::Some(ct) => {
            if !is_blank(ct.as_str()) {
                match merge_toml_configs(ct.as_str(), config_text.as_str()) {
                    Result::Ok(m) => m,
                    Result::Err(e) => {
                        return Result::Err(e);
                    },
                }
            } else {
                config_text
            }
        },
        Option::None => config_text,
    };
    Result::Ok(ConfigFiles { auth_json, config_toml })
}

/// Computes what applying the given profile would write: the profile is
/// looked up (`NotFound` when absent) and its payload rendered against the
/// family's common layer. The store is read only; no flag changes.
pub fn apply_config_to_file_public(store: &FamilyStore, provider_id: &str) -> (r: Result<
    ConfigFiles,
    CfgError,
>)
    ensures
        !has_id(store.profiles@, provider_id@) ==> (r matches Err(e) && e == CfgError::NotFound),
        has_id(store.profiles@, provider_id@) ==> exists|i: int|
            {
                &&& 0 <= i < store.profiles@.len()
                &&& (#[trigger] store.profiles@[i]).id@ == provider_id@
                &&& render_outcome(
                    store.profiles@[i].settings_config@,
                    store_common_text(*store),
                    r,
                )
            },
        has_id(store.profiles@, provider_id@) ==> (r matches Err(e) ==> e matches
            CfgError::ParseError(_)),
{
    let idx = match crate::store::find_profile_index(&store.profiles, provider_id) {
        Option::Some(i) => i,
        Option::None => {
            return Result::Err(CfgError::NotFound);
        },
    };
    let common: Option<String> = match &store.common_config {
        Option::Some(c) => Option::Some(c.config.clone()),
        Option::None => Option::None,
    };
    let r = render_config_files(store.profiles[idx].settings_config.as_str(), &common);
    proof {
        assert(opt_text_view(common) == store_common_text(*store));
    }
    r
}

/// The file half of an apply result, with the origin tag dropped.
pub open spec fn files_part(r: Result<(ConfigFiles, String), CfgError>) -> Result<
    ConfigFiles,
    CfgError,
> {
    match r {
        Result::Ok(p) => Result::Ok(p.0),
        Result::Err(e) => Result::Err(e),
    }
}

/// The origin tag an apply broadcasts: `tray` when triggered from the tray
/// menu, else `window`.
pub fn apply_event_origin(from_tray: bool) -> (r: String)
    ensures
        from_tray ==> r@ == "tray"@,
        !from_tray ==> r@ == "window"@,
{
    if from_tray {
        "tray".to_owned()
    } else {
        "window".to_owned()
    }
}

/// The full apply transition: the destination files are computed first —
/// any failure there surfaces to the caller and leaves every flag
/// untouched — and only then is the profile marked applied (every other
/// record's flag cleared). Returns the file contents for the caller to
/// write, with the origin tag to broadcast.
pub fn apply_config_internal(store: &mut FamilyStore, provider_id: &str, from_tray: bool) -> (r:
    Result<(ConfigFiles, String), CfgError>)
    ensures
        r is Err ==> *final(store) == *old(store),
        !has_id(old(store).profiles@, provider_id@) ==> (r matches Err(e) && e
            == CfgError::NotFound),
        has_id(old(store).profiles@, provider_id@) ==> exists|i: int|
            {
                &&& 0 <= i < old(store).profiles@.len()
                &&& (#[trigger] old(store).profiles@[i]).id@ == provider_id@
                &&& render_outcome(
                    old(store).profiles@[i].settings_config@,
                    store_common_text(*old(store)),
                    files_part(r),
                )
            },
        has_id(old(store).profiles@, provider_id@) ==> (r matches Err(e) ==> e matches
            CfgError::ParseError(_)),
        r matches Ok(p) ==> {
            &&& p.1@ == if from_tray {
                "tray"@
            } else {
                "window"@
            }
            &&& final(store).profiles@.len() == old(store).profiles@.len()
            &&& forall|i: int|
                0 <= i < old(store).profiles@.len() ==> {
                    let po = old(store).profiles@[i];
                    let pn = #[trigger] final(store).profiles@[i];
                    &&& same_record_core(po, pn)
                    &&& pn.sort_index == po.sort_index
                    &&& pn.is_applied == (po.id@ == provider_id@)
                }
            &&& final(store).common_config == old(store).common_config
            &&& (ids_distinct(old(store).profiles@) ==> at_most_one_applied(
                final(store).profiles@,
            ))
        },
{
    let files = match apply_config_to_file_public(store, provider_id) {
        Result::Ok(f) => f,
        Result::Err(e) => {
            return Result::Err(e);
        },
    };
    store.select_codex_provider(provider_id);
    let origin = apply_event_origin(from_tray);
    Result::Ok((files, origin))
}

/// Applies a profile's config, triggered from the window surface; see
/// `apply_config_internal`.
pub fn apply_codex_config(store: &mut FamilyStore, provider_id: &str) -> (r: Result<
    (ConfigFiles, String),
    CfgError,
>)
    ensures
        r is Err ==> *final(store) == *old(store),
        !has_id(old(store).profiles@, provider_id@) ==> (r matches Err(e) && e
            == CfgError::NotFound),
        has_id(old(store).profiles@, provider_id@) ==> exists|i: int|
            {
                &&& 0 <= i < old(store).profiles@.len()
                &&& (#[trigger] old(store).profiles@[i]).id@ == provider_id@
                &&& render_outcome(
                    old(store).profiles@[i].settings_config@,
                    store_common_text(*old(store)),
                    files_part(r),
                )
            },
        has_id(old(store).profiles@, provider_id@) ==> (r matches Err(e) ==> e matches
            CfgError::ParseError(_)),
        r matches Ok(p) ==> p.1@ == "window"@ && final(store).profiles@.len() == old(
            store,
        ).profiles@.len() && (ids_distinct(old(store).profiles@) ==> at_most_one_applied(
            final(store).profiles@,
        )),
{
    apply_config_internal(store, provider_id, false)
}

/// Finds the first record with the applied flag set.
pub fn find_applied_index(store: &FamilyStore) -> (r: Option<usize>)
    ensures
        r is Some <==> exists|i: int|
            0 <= i < store.profiles@.len() && (#[trigger] store.profiles@[i]).is_applied,
        r matches Some(i) ==> (i as int) < store.profiles@.len() && store.profiles@[
            i as int
        ].is_applied,
{
    let mut i: usize = 0;
    while i < store.profiles.len()
        invariant
            i <= store.profiles@.len(),
            forall|j: int| 0 <= j < i ==> !(#[trigger] store.profiles@[j]).is_applied,
        decreases store.profiles@.len() - i,
    {
        if store.profiles[i].is_applied {
            return Option::Some(i);
        }
        i += 1;
    }
    Option::None
}

/// The convenience re-apply that rides on a successful primary mutation:
/// renders the currently applied profile's files. Nothing comes back only
/// when no profile is applied or that profile's rendering fails (the
/// failure is reported to nobody, as the primary mutation already
/// succeeded); when the applied payload renders, the files are owed.
pub fn reapply_current_profile(store: &FamilyStore) -> (r: Option<ConfigFiles>)
    ensures
        (forall|i: int|
            0 <= i < store.profiles@.len() ==> !(#[trigger] store.profiles@[i]).is_applied) ==> r
            is None,
        (exists|i: int|
            0 <= i < store.profiles@.len() && (#[trigger] store.profiles@[i]).is_applied)
            ==> exists|i: int|
            {
                &&& 0 <= i < store.profiles@.len()
                &&& (#[trigger] store.profiles@[i]).is_applied
                &&& match r {
                    Option::Some(f) => render_outcome(
                        store.profiles@[i].settings_config@,
                        store_common_text(*store),
                        Result::<ConfigFiles, CfgError>::Ok(f),
                    ),
                    Option::None => exists|e: CfgError|
                        render_outcome(
                            store.profiles@[i].settings_config@,
                            store_common_text(*store),
                            Result::<ConfigFiles, CfgError>::Err(e),
                        ),
                }
            },
{
    let idx = match find_applied_index(store) {
        Option::Some(i) => i,
        Option::None => {
            return Option::None;
        },
    };
    let common: Option<String> = match &store.common_config {
        Option::Some(c) => Option::Some(c.config.clone()),
        Option::None => Option::None,
    };
    let rendered = render_config_files(store.profiles[idx].settings_config.as_str(), &common);
    proof {
        assert(opt_text_view(common) == store_common_text(*store));
    }
    match rendered {
        Result::Ok(f) => Option::Some(f),
        Result::Err(e) => {
            proof {
                assert(render_outcome(
                    store.profiles@[idx as int].settings_config@,
                    store_common_text(*store),
                    Result::<ConfigFiles, CfgError>::Err(e),
                ));
            }
            Option::None
        },
    }
}

/// Replaces a profile wholesale and, when the stored record is applied,
/// re-renders the destination files (the convenience action's failure is
/// swallowed: the record write already succeeded).
pub fn update_codex_provider(store: &mut FamilyStore, provider: Profile) -> (r: Result<
    (Profile, Option<ConfigFiles>),
    CfgError,
>)
    ensures
        !has_id(old(store).profiles@, provider.id@) ==> (r matches Err(e) && e
            == CfgError::NotFound && *final(store) == *old(store)),
        has_id(old(store).profiles@, provider.id@) ==> (r matches Ok(pr) && exists|i: int|
            {
                &&& 0 <= i < old(store).profiles@.len()
                &&& (#[trigger] old(store).profiles@[i]).id@ == provider.id@
                &&& pr.0.id == provider.id
                &&& pr.0.name == provider.name
                &&& pr.0.category == provider.category
                &&& pr.0.settings_config == provider.settings_config
                &&& pr.0.source_provider_id == provider.source_provider_id
                &&& pr.0.website_url == provider.website_url
                &&& pr.0.notes == provider.notes
                &&& pr.0.icon == provider.icon
                &&& pr.0.icon_color == provider.icon_color
                &&& pr.0.sort_index == provider.sort_index
                &&& pr.0.is_applied == provider.is_applied
                &&& pr.0.created_at == if provider.created_at@.len() > 0 {
                    provider.created_at
                } else {
                    old(store).profiles@[i].created_at
                }
                &&& final(store).profiles@ == old(store).profiles@.remove(i).push(pr.0)
                &&& final(store).common_config == old(store).common_config
                &&& (!pr.0.is_applied ==> pr.1 is None)
                &&& (pr.0.is_applied ==> match pr.1 {
                    Option::Some(f) => render_outcome(
                        pr.0.settings_config@,
                        store_common_text(*final(store)),
                        Result::<ConfigFiles, CfgError>::Ok(f),
                    ),
                    Option::None => exists|e: CfgError|
                        render_outcome(
                            pr.0.settings_config@,
                            store_common_text(*final(store)),
                            Result::<ConfigFiles, CfgError>::Err(e),
                        ),
                })
            }),
{
    let now = crate::store::now_rfc3339();
    let updated = match store.update_codex_provider_at(provider, now) {
        Result::Ok(p) => p,
        Result::Err(e) => {
            return Result::Err(e);
        },
    };
    let files = if updated.is_applied {
        let common: Option<String> = match &store.common_config {
            Option::Some(c) => Option::Some(c.config.clone()),
            Option::None => Option::None,
        };
        let rendered = render_config_files(updated.settings_config.as_str(), &common);
        proof {
            assert(opt_text_view(common) == store_common_text(*store));
        }
        match rendered {
            Result::Ok(f) => Option::Some(f),
            Result::Err(e) => {
                proof {
                    assert(render_outcome(
                        updated.settings_config@,
                        store_common_text(*store),
                        Result::<ConfigFiles, CfgError>::Err(e),
                    ));
                }
                Option::None
            },
        }
    } else {
        Option::None
    };
    Result::Ok((updated, files))
}

} // verus!
