use cfghub::json::clean_empty_values;
use cfghub::json::deep_merge_json;
use cfghub::json::get_bool_compat;
use cfghub::json::get_opt_str_compat;
use cfghub::json::get_str_compat;
use cfghub::json::json_min_str;
use cfghub::json::json_parse;
use cfghub::json::json_pretty_str;
use cfghub::json::JsonVal;

fn s(t: &str) -> String {
    t.to_string()
}

fn obj(entries: Vec<(&str, JsonVal)>) -> JsonVal {
    JsonVal::Obj(entries.into_iter().map(|(k, v)| (s(k), v)).collect())
}

fn num(n: i64) -> JsonVal {
    JsonVal::Num(serde_json::Number::from(n))
}

#[test]
fn deep_merge_recurses_on_objects_and_replaces_scalars() {
    let base = obj(vec![
        ("a", obj(vec![("x", num(1)), ("y", num(2))])),
        ("b", num(1)),
    ]);
    let overlay = obj(vec![
        ("a", obj(vec![("y", num(3)), ("z", num(4))])),
        ("c", num(5)),
    ]);
    let merged = deep_merge_json(&base, &overlay);
    let expected = obj(vec![
        ("a", obj(vec![("x", num(1)), ("y", num(3)), ("z", num(4))])),
        ("b", num(1)),
        ("c", num(5)),
    ]);
    assert_eq!(merged, expected);
}

#[test]
fn deep_merge_with_empty_overlay_is_identity() {
    let base = obj(vec![("a", JsonVal::Str(s("v"))), ("b", JsonVal::Null)]);
    let merged = deep_merge_json(&base, &obj(vec![]));
    assert_eq!(merged, base);
}

#[test]
fn deep_merge_with_itself_is_idempotent() {
    let x = obj(vec![
        ("a", obj(vec![("x", num(1))])),
        ("b", JsonVal::Str(s("t"))),
    ]);
    let merged = deep_merge_json(&x, &x);
    assert_eq!(merged, x);
}

#[test]
fn deep_merge_keeps_base_when_overlay_is_not_an_object() {
    let base = obj(vec![("a", num(1))]);
    let merged = deep_merge_json(&base, &num(7));
    assert_eq!(merged, base);
}

#[test]
fn clean_empty_values_drops_nulls_and_empty_objects_keeps_arrays() {
    let v = obj(vec![
        ("a", JsonVal::Null),
        ("b", obj(vec![])),
        ("c", JsonVal::Arr(vec![])),
        ("d", num(1)),
        ("e", obj(vec![("inner", JsonVal::Null)])),
    ]);
    let cleaned = clean_empty_values(&v);
    let expected = obj(vec![("c", JsonVal::Arr(vec![])), ("d", num(1))]);
    assert_eq!(cleaned, expected);
}

#[test]
fn merge_of_pruned_with_empty_object_gives_pruned_back() {
    let x = obj(vec![("a", JsonVal::Null), ("b", num(2))]);
    let pruned = clean_empty_values(&x);
    let merged = deep_merge_json(&pruned, &obj(vec![]));
    assert_eq!(merged, pruned);
}

#[test]
fn compat_getters_probe_current_then_legacy_key() {
    let snake = obj(vec![("config_id", JsonVal::Str(s("a")))]);
    let camel = obj(vec![("configId", JsonVal::Str(s("b")))]);
    assert_eq!(get_str_compat(&snake, "config_id", "configId", "d"), s("a"));
    assert_eq!(get_str_compat(&camel, "config_id", "configId", "d"), s("b"));
    assert_eq!(get_str_compat(&obj(vec![]), "config_id", "configId", "d"), s("d"));
    assert_eq!(get_opt_str_compat(&camel, "config_id", "configId"), Some(s("b")));
    assert_eq!(get_opt_str_compat(&obj(vec![]), "config_id", "configId"), None);
    let flags = obj(vec![("isApplied", JsonVal::Bool(true))]);
    assert!(get_bool_compat(&flags, "is_applied", "isApplied", false));
    assert!(!get_bool_compat(&obj(vec![]), "is_applied", "isApplied", false));
}

#[test]
fn json_parse_builds_the_document_not_the_text() {
    let parsed = json_parse("{\"k\":\"v\",\"n\":3}").unwrap();
    let expected = obj(vec![("k", JsonVal::Str(s("v"))), ("n", num(3))]);
    assert_eq!(parsed, expected);
    assert!(json_parse("{nope").is_err());
}

#[test]
fn json_pretty_and_min_render_real_json() {
    let v = obj(vec![("key", JsonVal::Str(s("abc")))]);
    assert_eq!(json_pretty_str(&v), "{\n  \"key\": \"abc\"\n}");
    assert_eq!(json_min_str(&v), "{\"key\":\"abc\"}");
}
