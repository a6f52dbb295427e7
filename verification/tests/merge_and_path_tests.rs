use cfghub::errors::CfgError;
use cfghub::paths::expand_home_path;
use cfghub::paths::get_codex_auth_path;
use cfghub::paths::get_codex_config_dir_path;
use cfghub::paths::get_codex_config_path;
use cfghub::paths::is_any_platform_absolute;
use cfghub::paths::join_path;
use cfghub::paths::resolve_central_repo_path;
use cfghub::paths::resolve_skill_central_path;
use cfghub::paths::to_relative_central_path;
use cfghub::toml_merge::merge_toml_configs;
use cfghub::toml_merge::validate_common_config;

#[test]
fn merge_layered_text_blank_common_returns_profile() {
    assert_eq!(merge_toml_configs("", "model=\"y\"").unwrap(), "model=\"y\"");
    assert_eq!(merge_toml_configs(" \t\n", "model=\"y\"").unwrap(), "model=\"y\"");
}

#[test]
fn merge_layered_text_blank_profile_returns_common() {
    assert_eq!(merge_toml_configs("region=\"us\"", "").unwrap(), "region=\"us\"");
    assert_eq!(merge_toml_configs("region=\"us\"", "  \n").unwrap(), "region=\"us\"");
}

#[test]
fn merge_layered_text_profile_keys_win_and_common_only_keys_survive() {
    let merged = merge_toml_configs("region=\"us\"", "region=\"eu\"\nmodel=\"y\"").unwrap();
    let table: toml::Table = toml::from_str(&merged).unwrap();
    assert_eq!(table.get("region").unwrap().as_str().unwrap(), "eu");
    assert_eq!(table.get("model").unwrap().as_str().unwrap(), "y");
    assert_eq!(table.len(), 2);

    let merged2 = merge_toml_configs("keep=\"c\"\nboth=\"c\"", "both=\"p\"").unwrap();
    let table2: toml::Table = toml::from_str(&merged2).unwrap();
    assert_eq!(table2.get("keep").unwrap().as_str().unwrap(), "c");
    assert_eq!(table2.get("both").unwrap().as_str().unwrap(), "p");
}

#[test]
fn merge_layered_text_table_level_override_is_not_recursive() {
    let merged = merge_toml_configs(
        "[svc]\na = \"1\"\nb = \"2\"",
        "[svc]\nb = \"3\"",
    )
    .unwrap();
    let table: toml::Table = toml::from_str(&merged).unwrap();
    let svc = table.get("svc").unwrap().as_table().unwrap();
    assert!(svc.get("a").is_none(), "profile table replaces the common table wholesale");
    assert_eq!(svc.get("b").unwrap().as_str().unwrap(), "3");
}

#[test]
fn merge_is_deterministic_in_its_inputs() {
    let a = "region=\"us\"\nretries=2";
    let b = "region=\"eu\"";
    let first = merge_toml_configs(a, b).unwrap();
    let second = merge_toml_configs(a, b).unwrap();
    assert_eq!(first, second);
}

#[test]
fn merge_layered_text_rejects_malformed_input() {
    match merge_toml_configs("model=", "a=1") {
        Err(CfgError::ParseError(_)) => {},
        other => panic!("expected a parse error, got {:?}", other),
    }
    match merge_toml_configs("a=1", "model=") {
        Err(CfgError::ParseError(_)) => {},
        other => panic!("expected a parse error, got {:?}", other),
    }
}

#[test]
fn validate_common_config_accepts_blank_and_wellformed_only() {
    assert!(validate_common_config("").is_ok());
    assert!(validate_common_config("model=\"x\"").is_ok());
    assert!(matches!(validate_common_config("= nope"), Err(CfgError::ParseError(_))));
}

#[test]
fn any_platform_absolute_recognises_unix_and_windows_shapes() {
    assert!(is_any_platform_absolute("/data/skills"));
    assert!(is_any_platform_absolute("C:\\Users\\x"));
    assert!(is_any_platform_absolute("c:/users/x"));
    assert!(!is_any_platform_absolute("relative/path"));
    assert!(!is_any_platform_absolute(""));
    assert!(!is_any_platform_absolute("1:\\nope"));
}

#[test]
fn to_relative_strips_central_prefix_and_normalises() {
    assert_eq!(to_relative_central_path("/data/skills/foo/bar", "/data/skills"), "foo/bar");
    assert_eq!(to_relative_central_path("/data/skills/foo/bar", "/data/skills/"), "foo/bar");
    assert_eq!(to_relative_central_path("/data/skills", "/data/skills"), "");
    assert_eq!(to_relative_central_path("/elsewhere/foo", "/data/skills"), "foo");
    assert_eq!(
        to_relative_central_path("C:\\Users\\x\\skills\\foo", "/data/skills"),
        "C:\\Users\\x\\skills\\foo",
        "a foreign path without native separators keeps only its (single) component"
    );
}

#[test]
fn stored_relative_path_round_trips_through_resolution() {
    let central = "/data/skills";
    let p = "/data/skills/foo/bar";
    let stored = to_relative_central_path(p, central);
    assert_eq!(resolve_skill_central_path(&stored, central, false), p);
    let slashed = "/data/skills/";
    let stored2 = to_relative_central_path(p, slashed);
    assert_eq!(resolve_skill_central_path(&stored2, slashed, false), p);
}

#[test]
fn foreign_windows_path_is_reanchored_by_final_segment() {
    let resolved = resolve_skill_central_path("C:\\Users\\x\\skills\\foo", "/data/skills", false);
    assert_eq!(resolved, "/data/skills/foo");
}

#[test]
fn native_absolute_existing_path_is_used_as_is() {
    let resolved = resolve_skill_central_path("/opt/existing", "/data/skills", true);
    assert_eq!(resolved, "/opt/existing");
    let gone = resolve_skill_central_path("/opt/gone", "/data/skills", false);
    assert_eq!(gone, "/data/skills/gone");
}

#[test]
fn central_repo_path_prefers_stored_setting() {
    assert_eq!(
        resolve_central_repo_path(&Some("/custom/repo".to_string()), "/app/data"),
        "/custom/repo"
    );
    assert_eq!(resolve_central_repo_path(&None, "/app/data"), "/app/data/skills");
    assert_eq!(resolve_central_repo_path(&Some(String::new()), "/app/data"), "/app/data/skills");
}

#[test]
fn join_path_inserts_single_separator() {
    assert_eq!(join_path("/a", "b"), "/a/b");
    assert_eq!(join_path("/a/", "b"), "/a/b");
    assert_eq!(join_path("", "b"), "b");
}

#[test]
fn expand_home_rejects_empty_and_passes_plain_paths_through() {
    assert!(matches!(expand_home_path("   "), Err(CfgError::InvalidPath)));
    assert_eq!(expand_home_path("/x/y").unwrap(), "/x/y");
    assert_eq!(expand_home_path("  /x/y \n").unwrap(), "/x/y");
}

#[test]
fn expand_home_resolves_tilde_against_home() {
    if let Ok(home) = expand_home_path("~") {
        assert!(!home.is_empty());
        let sub = expand_home_path("~/sub").unwrap();
        assert_eq!(sub, format!("{}/sub", home));
    }
}

#[test]
fn codex_paths_live_under_the_home_config_dir() {
    assert_eq!(get_codex_auth_path("/home/u"), "/home/u/.codex/auth.json");
    assert_eq!(get_codex_config_path("/home/u"), "/home/u/.codex/config.toml");
    if let Ok(dir) = get_codex_config_dir_path() {
        assert!(dir.ends_with("/.codex"));
    }
}
