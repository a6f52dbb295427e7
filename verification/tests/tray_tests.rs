use cfghub::adapter::from_db_value;
use cfghub::adapter::global_config_from_db_value;
use cfghub::adapter::global_config_to_db_value;
use cfghub::adapter::to_db_value;
use cfghub::adapter::OhMyOpenCodeConfig;
use cfghub::json::JsonVal;
use cfghub::tray::apply_tray_policy;
use cfghub::tray::refresh_tray_menus;
use cfghub::tray::tray_event_action;
use cfghub::tray::MenuEntry;
use cfghub::tray::TrayAction;
use cfghub::tray::TrayPolicy;

fn s(t: &str) -> String {
    t.to_string()
}

fn obj(entries: Vec<(&str, JsonVal)>) -> JsonVal {
    JsonVal::Obj(entries.into_iter().map(|(k, v)| (s(k), v)).collect())
}

fn num(n: i64) -> JsonVal {
    JsonVal::Num(serde_json::Number::from(n))
}

fn omo_record(id: &str, name: &str, applied: bool) -> JsonVal {
    obj(vec![
        ("config_id", JsonVal::Str(s(id))),
        ("name", JsonVal::Str(s(name))),
        ("is_applied", JsonVal::Bool(applied)),
    ])
}

fn claude_record(id: &str, name: &str, applied: bool, sort: i64) -> JsonVal {
    obj(vec![
        ("providerId", JsonVal::Str(s(id))),
        ("name", JsonVal::Str(s(name))),
        ("isApplied", JsonVal::Bool(applied)),
        ("sortIndex", num(sort)),
    ])
}

#[test]
fn menu_is_flat_with_sorted_sections_and_checked_applied_entry() {
    let omo = vec![
        omo_record("two", "Zeta", false),
        omo_record("one", "Alpha", true),
    ];
    let claude = vec![
        claude_record("late", "Late", false, 9),
        claude_record("early", "Early", true, 1),
    ];
    let menu = refresh_tray_menus(&omo, &claude);
    assert_eq!(menu[0], MenuEntry::ShowWindow);
    assert_eq!(menu[1], MenuEntry::Separator);
    assert_eq!(menu[2], MenuEntry::Header(s("Oh My OpenCode")));
    assert_eq!(
        menu[3],
        MenuEntry::Item { id: s("omo_config_one"), label: s("Alpha"), checked: true, enabled: true }
    );
    assert_eq!(
        menu[4],
        MenuEntry::Item { id: s("omo_config_two"), label: s("Zeta"), checked: false, enabled: true }
    );
    assert_eq!(menu[5], MenuEntry::Separator);
    assert_eq!(menu[6], MenuEntry::Header(s("Providers")));
    assert_eq!(
        menu[7],
        MenuEntry::Item {
            id: s("claude_provider_early"),
            label: s("Early"),
            checked: true,
            enabled: true,
        }
    );
    assert_eq!(
        menu[8],
        MenuEntry::Item {
            id: s("claude_provider_late"),
            label: s("Late"),
            checked: false,
            enabled: true,
        }
    );
    assert_eq!(menu[9], MenuEntry::Quit);
    assert_eq!(menu.len(), 10);
}

#[test]
fn empty_families_render_disabled_placeholders() {
    let menu = refresh_tray_menus(&vec![], &vec![]);
    assert_eq!(
        menu[3],
        MenuEntry::Item {
            id: s("omo_empty"),
            label: s("No configurations"),
            checked: false,
            enabled: false,
        }
    );
    assert_eq!(menu[4], MenuEntry::Separator);
    assert_eq!(
        menu[6],
        MenuEntry::Item {
            id: s("claude_empty"),
            label: s("No configurations"),
            checked: false,
            enabled: false,
        }
    );
    assert_eq!(menu[7], MenuEntry::Quit);
}

#[test]
fn incomplete_records_are_skipped() {
    let omo = vec![
        obj(vec![("name", JsonVal::Str(s("No id"))), ("is_applied", JsonVal::Bool(false))]),
        omo_record("ok", "Ok", false),
    ];
    let menu = refresh_tray_menus(&omo, &vec![]);
    assert_eq!(
        menu[3],
        MenuEntry::Item { id: s("omo_config_ok"), label: s("Ok"), checked: false, enabled: true }
    );
    assert_eq!(menu[4], MenuEntry::Separator);
}

#[test]
fn tray_events_dispatch_by_item_id() {
    assert_eq!(tray_event_action("show"), TrayAction::ShowMainWindow);
    assert_eq!(
        tray_event_action("omo_config_alpha"),
        TrayAction::ApplyOmoConfig(s("alpha"))
    );
    assert_eq!(
        tray_event_action("claude_provider_beta"),
        TrayAction::ApplyClaudeProvider(s("beta"))
    );
    assert_eq!(tray_event_action("quit"), TrayAction::Ignore);
}

#[test]
fn tray_policy_hides_dock_only_when_minimizing() {
    assert_eq!(apply_tray_policy(true), TrayPolicy::HideDockIcon);
    assert_eq!(apply_tray_policy(false), TrayPolicy::ShowDockIcon);
}

#[test]
fn record_decode_probes_legacy_keys() {
    let rec = obj(vec![
        ("configId", JsonVal::Str(s("c1"))),
        ("isApplied", JsonVal::Bool(true)),
        ("createdAt", JsonVal::Str(s("2020"))),
    ]);
    let decoded = from_db_value(rec);
    assert_eq!(decoded.id, "c1");
    assert_eq!(decoded.name, "Unnamed Config");
    assert!(decoded.is_applied);
    assert_eq!(decoded.created_at, Some(s("2020")));
    assert!(decoded.agents.is_none());
}

#[test]
fn record_encode_writes_current_keys() {
    let content = OhMyOpenCodeConfig {
        id: s("c1"),
        name: s("Name"),
        is_applied: false,
        agents: Some(JsonVal::Bool(true)),
        other_fields: None,
        created_at: Some(s("t0")),
        updated_at: Some(s("t1")),
    };
    let encoded = to_db_value(&content);
    let round = from_db_value(encoded);
    assert_eq!(round.id, "c1");
    assert_eq!(round.name, "Name");
    assert_eq!(round.agents, Some(JsonVal::Bool(true)));
    assert_eq!(round.created_at, Some(s("t0")));
    assert_eq!(round.updated_at, Some(s("t1")));
}

#[test]
fn global_config_decode_reads_string_lists() {
    let rec = obj(vec![
        ("configId", JsonVal::Str(s("global"))),
        ("schema", JsonVal::Str(s("v1"))),
        (
            "disabledAgents",
            JsonVal::Arr(vec![JsonVal::Str(s("a")), JsonVal::Str(s("b"))]),
        ),
        ("disabled_mcps", JsonVal::Arr(vec![JsonVal::Str(s("m")), num(1)])),
    ]);
    let decoded = global_config_from_db_value(rec);
    assert_eq!(decoded.schema, Some(s("v1")));
    assert_eq!(decoded.disabled_agents, Some(vec![s("a"), s("b")]));
    assert_eq!(decoded.disabled_mcps, None, "a non-string element rejects the list");
    let encoded = global_config_to_db_value(&decoded);
    let round = global_config_from_db_value(encoded);
    assert_eq!(round.disabled_agents, Some(vec![s("a"), s("b")]));
}
