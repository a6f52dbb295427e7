use cfghub::apply::apply_codex_config;
use cfghub::apply::apply_config_internal;
use cfghub::apply::apply_config_to_file_public;
use cfghub::apply::reapply_current_profile;
use cfghub::apply::render_config_files;
use cfghub::apply::update_codex_provider;
use cfghub::errors::CfgError;
use cfghub::store::FamilyStore;
use cfghub::store::Profile;
use cfghub::store::ProfileInput;

fn input(id: &str, name: &str, settings: &str, sort: Option<i64>) -> ProfileInput {
    ProfileInput {
        id: id.to_string(),
        name: name.to_string(),
        category: String::new(),
        settings_config: settings.to_string(),
        source_provider_id: None,
        website_url: None,
        notes: None,
        icon: None,
        icon_color: None,
        sort_index: sort,
    }
}

#[test]
fn create_stamps_and_forces_unapplied() {
    let mut store = FamilyStore::new();
    let p = store.create_codex_provider(input("a", "Alpha", "{}", None)).unwrap();
    assert_eq!(p.id, "a");
    assert!(!p.is_applied);
    assert_eq!(p.created_at, p.updated_at);
    assert!(!p.created_at.is_empty());
    assert_eq!(store.profiles.len(), 1);
}

#[test]
fn create_rejects_duplicate_id() {
    let mut store = FamilyStore::new();
    store.create_codex_provider(input("a", "Alpha", "{}", None)).unwrap();
    match store.create_codex_provider(input("a", "Again", "{}", None)) {
        Err(CfgError::DuplicateId) => {},
        other => panic!("expected DuplicateId, got {:?}", other),
    }
    assert_eq!(store.profiles.len(), 1);
}

#[test]
fn update_missing_profile_is_not_found() {
    let mut store = FamilyStore::new();
    let ghostly = Profile {
        id: "nope".to_string(),
        name: "X".to_string(),
        category: String::new(),
        settings_config: "{}".to_string(),
        source_provider_id: None,
        website_url: None,
        notes: None,
        icon: None,
        icon_color: None,
        sort_index: None,
        is_applied: false,
        created_at: String::new(),
        updated_at: String::new(),
    };
    match update_codex_provider(&mut store, ghostly) {
        Err(CfgError::NotFound) => {},
        other => panic!("expected NotFound, got {:?}", other),
    }
}

#[test]
fn update_preserves_creation_time_when_blank() {
    let mut store = FamilyStore::new();
    let created = store.create_codex_provider(input("a", "Alpha", "{}", None)).unwrap();
    let mut changed = created;
    changed.name = "Alpha 2".to_string();
    changed.created_at = String::new();
    let (updated, files) = update_codex_provider(&mut store, changed).unwrap();
    assert_eq!(updated.name, "Alpha 2");
    assert!(!updated.created_at.is_empty());
    assert!(files.is_none(), "an unapplied record triggers no re-apply");
    assert_eq!(store.profiles.len(), 1);
    assert_eq!(store.profiles[0].name, "Alpha 2");
}

#[test]
fn delete_removes_by_id_and_ignores_absent() {
    let mut store = FamilyStore::new();
    store.create_codex_provider(input("a", "Alpha", "{}", None)).unwrap();
    store.create_codex_provider(input("b", "Beta", "{}", None)).unwrap();
    store.delete_codex_provider("a");
    assert_eq!(store.profiles.len(), 1);
    assert_eq!(store.profiles[0].id, "b");
    store.delete_codex_provider("zzz");
    assert_eq!(store.profiles.len(), 1);
}

#[test]
fn reorder_assigns_positions_and_list_follows() {
    let mut store = FamilyStore::new();
    store.create_codex_provider(input("a", "A", "{}", Some(0))).unwrap();
    store.create_codex_provider(input("b", "B", "{}", Some(1))).unwrap();
    store.create_codex_provider(input("c", "C", "{}", Some(2))).unwrap();
    let order = vec!["b".to_string(), "a".to_string(), "c".to_string()];
    store.reorder_codex_providers(&order);
    let listed = store.list_codex_providers();
    let ids: Vec<&str> = listed.iter().map(|p| p.id.as_str()).collect();
    assert_eq!(ids, vec!["b", "a", "c"]);
    let sorts: Vec<i64> = listed.iter().map(|p| p.sort_index.unwrap()).collect();
    assert_eq!(sorts, vec![0, 1, 2]);
}

#[test]
fn list_orders_by_sort_index_with_missing_as_zero() {
    let mut store = FamilyStore::new();
    store.create_codex_provider(input("late", "L", "{}", Some(5))).unwrap();
    store.create_codex_provider(input("none", "N", "{}", None)).unwrap();
    store.create_codex_provider(input("neg", "G", "{}", Some(-1))).unwrap();
    let listed = store.list_codex_providers();
    let ids: Vec<&str> = listed.iter().map(|p| p.id.as_str()).collect();
    assert_eq!(ids, vec!["neg", "none", "late"]);
}

#[test]
fn select_marks_exactly_one_applied() {
    let mut store = FamilyStore::new();
    store.create_codex_provider(input("a", "A", "{}", None)).unwrap();
    store.create_codex_provider(input("b", "B", "{}", None)).unwrap();
    store.select_codex_provider("a");
    let applied: Vec<&str> =
        store.profiles.iter().filter(|p| p.is_applied).map(|p| p.id.as_str()).collect();
    assert_eq!(applied, vec!["a"]);
    store.select_codex_provider("b");
    let applied2: Vec<&str> =
        store.profiles.iter().filter(|p| p.is_applied).map(|p| p.id.as_str()).collect();
    assert_eq!(applied2, vec!["b"]);
}

#[test]
fn apply_scenario_writes_auth_and_config_and_flips_flag() {
    let mut store = FamilyStore::new();
    store
        .create_codex_provider(input(
            "anthropic-default",
            "Anthropic",
            "{\"auth\":{\"key\":\"abc\"},\"config\":\"model=\\\"x\\\"\"}",
            None,
        ))
        .unwrap();
    let (files, origin) = apply_config_internal(&mut store, "anthropic-default", false).unwrap();
    assert_eq!(files.auth_json, "{\n  \"key\": \"abc\"\n}");
    assert_eq!(files.config_toml, "model=\"x\"");
    assert_eq!(origin, "window");
    assert!(store.profiles[0].is_applied);
}

#[test]
fn apply_merges_common_layer_under_profile_text() {
    let mut store = FamilyStore::new();
    store
        .create_codex_provider(input(
            "p",
            "P",
            "{\"auth\":{},\"config\":\"region=\\\"eu\\\"\\nmodel=\\\"y\\\"\"}",
            None,
        ))
        .unwrap();
    store.save_codex_common_config("region=\"us\"\nretries=2".to_string()).unwrap();
    let files = apply_config_to_file_public(&store, "p").unwrap();
    let table: toml::Table = toml::from_str(&files.config_toml).unwrap();
    assert_eq!(table.get("region").unwrap().as_str().unwrap(), "eu");
    assert_eq!(table.get("model").unwrap().as_str().unwrap(), "y");
    assert_eq!(table.get("retries").unwrap().as_integer().unwrap(), 2);
}

#[test]
fn apply_unknown_profile_is_not_found_and_flips_nothing() {
    let mut store = FamilyStore::new();
    store.create_codex_provider(input("a", "A", "{}", None)).unwrap();
    match apply_codex_config(&mut store, "missing") {
        Err(CfgError::NotFound) => {},
        other => panic!("expected NotFound, got {:?}", other),
    }
    assert!(!store.profiles[0].is_applied);
}

#[test]
fn apply_malformed_payload_is_parse_error_and_flips_nothing() {
    let mut store = FamilyStore::new();
    store.create_codex_provider(input("bad", "B", "this is not json", None)).unwrap();
    match apply_config_internal(&mut store, "bad", true) {
        Err(CfgError::ParseError(_)) => {},
        other => panic!("expected ParseError, got {:?}", other),
    }
    assert!(!store.profiles[0].is_applied);
}

#[test]
fn apply_from_tray_carries_tray_origin() {
    let mut store = FamilyStore::new();
    store.create_codex_provider(input("a", "A", "{}", None)).unwrap();
    let (_, origin) = apply_config_internal(&mut store, "a", true).unwrap();
    assert_eq!(origin, "tray");
}

#[test]
fn save_common_config_validates_toml() {
    let mut store = FamilyStore::new();
    assert!(store.save_codex_common_config("   ".to_string()).is_ok());
    assert!(store.save_codex_common_config("region=\"us\"".to_string()).is_ok());
    let cfg = store.get_codex_common_config().unwrap();
    assert_eq!(cfg.config, "region=\"us\"");
    match store.save_codex_common_config("= broken".to_string()) {
        Err(CfgError::ParseError(_)) => {},
        other => panic!("expected ParseError, got {:?}", other),
    }
    assert_eq!(store.get_codex_common_config().unwrap().config, "region=\"us\"");
}

#[test]
fn reapply_renders_for_the_applied_profile_only() {
    let mut store = FamilyStore::new();
    assert!(reapply_current_profile(&store).is_none());
    store
        .create_codex_provider(input("a", "A", "{\"auth\":{},\"config\":\"k=\\\"v\\\"\"}", None))
        .unwrap();
    assert!(reapply_current_profile(&store).is_none());
    store.select_codex_provider("a");
    let files = reapply_current_profile(&store).unwrap();
    assert_eq!(files.config_toml, "k=\"v\"");
}

#[test]
fn first_run_import_creates_one_applied_synthetic_profile() {
    let mut store = FamilyStore::new();
    let imported = store
        .init_codex_provider_from_settings(
            Some("{\"key\":\"abc\"}".to_string()),
            Some("model=\"x\"".to_string()),
        )
        .unwrap();
    assert!(imported);
    assert_eq!(store.profiles.len(), 1);
    let p = &store.profiles[0];
    assert_eq!(p.id, "default-config");
    assert!(p.is_applied);
    assert_eq!(p.sort_index, Some(0));
    let payload: serde_json::Value = serde_json::from_str(&p.settings_config).unwrap();
    assert_eq!(payload["auth"]["key"], serde_json::Value::String("abc".to_string()));
    assert_eq!(payload["config"], serde_json::Value::String("model=\"x\"".to_string()));
}

#[test]
fn second_startup_with_profiles_present_skips_import() {
    let mut store = FamilyStore::new();
    store
        .init_codex_provider_from_settings(Some("{}".to_string()), None)
        .unwrap();
    assert_eq!(store.profiles.len(), 1);
    let again = store
        .init_codex_provider_from_settings(Some("{}".to_string()), None)
        .unwrap();
    assert!(!again);
    assert_eq!(store.profiles.len(), 1);
}

#[test]
fn import_without_legacy_auth_or_with_bad_auth_does_nothing() {
    let mut store = FamilyStore::new();
    assert!(!store.init_codex_provider_from_settings(None, None).unwrap());
    assert_eq!(store.profiles.len(), 0);
    match store.init_codex_provider_from_settings(Some("{broken".to_string()), None) {
        Err(CfgError::ParseError(_)) => {},
        other => panic!("expected ParseError, got {:?}", other),
    }
    assert_eq!(store.profiles.len(), 0);
}

#[test]
fn render_defaults_missing_sections() {
    let files = render_config_files("{}", &None).unwrap();
    assert_eq!(files.auth_json, "{}");
    assert_eq!(files.config_toml, "");
}
