//! Tests of the event matcher: match rules, triggers, debouncing and
//! extraction.

use inno::dbus::{
    battery_fallback, build_notify_event, extract_centi, extract_u32, path_is_battery,
    process_message, upower_state_to_string, value_to_string, BusMessage, DebounceTable,
    PropValue,
};
use inno::events::{
    builtin_battery_event, default_bus, default_debounce, default_enabled, format_message,
    ConditionsConfig, EventConfig, FormatConfig, MatchRule,
};

fn battery_rule() -> MatchRule {
    MatchRule {
        interface: Some("org.freedesktop.DBus.Properties".to_string()),
        member: Some("PropertiesChanged".to_string()),
        path: None,
        path_prefix: Some("/org/freedesktop/UPower/devices".to_string()),
        arg0: Some("org.freedesktop.UPower.Device".to_string()),
        sender: None,
    }
}

fn event_named(name: &str) -> EventConfig {
    EventConfig {
        name: name.to_string(),
        enabled: true,
        bus: "system".to_string(),
        match_rule: MatchRule::default(),
        extract: vec![
            ("percentage".to_string(), "Percentage".to_string()),
            ("state".to_string(), "State".to_string()),
        ],
        state_map: vec![
            ("1".to_string(), "charging".to_string()),
            ("2".to_string(), "discharging".to_string()),
        ],
        format: FormatConfig { message: "{percentage}%".to_string(), signal: None },
        conditions: ConditionsConfig::default(),
    }
}

fn message_with(props: Vec<(&str, PropValue)>) -> BusMessage {
    BusMessage {
        interface: "org.freedesktop.DBus.Properties".to_string(),
        member: "PropertiesChanged".to_string(),
        path: "/org/example/device".to_string(),
        arg0: None,
        props: props.into_iter().map(|(k, v)| (k.to_string(), v)).collect(),
    }
}

#[test]
fn match_rule_checks_each_populated_field() {
    let r = battery_rule();
    assert!(r.matches(
        "org.freedesktop.DBus.Properties",
        "PropertiesChanged",
        "/org/freedesktop/UPower/devices/battery_BAT0",
    ));
    assert!(!r.matches(
        "org.freedesktop.DBus.Properties",
        "PropertiesChanged",
        "/org/elsewhere",
    ));
    assert!(!r.matches("org.other", "PropertiesChanged", "/org/freedesktop/UPower/devices/x"));
    assert!(!r.matches("org.freedesktop.DBus.Properties", "Other", "/org/freedesktop/UPower/devices/x"));
}

#[test]
fn empty_rule_matches_everything() {
    let r = MatchRule::default();
    assert!(r.matches("a", "b", "/c"));
}

#[test]
fn match_string_lists_populated_fields() {
    let r = battery_rule();
    let expected = "type='signal',interface='org.freedesktop.DBus.Properties',member='PropertiesChanged',path_namespace='/org/freedesktop/UPower/devices',arg0='org.freedesktop.UPower.Device'";
    assert_eq!(r.to_match_string(), expected);
    assert_eq!(MatchRule::default().to_match_string(), "type='signal'");
}

#[test]
fn require_all_with_missing_property_does_not_fire() {
    let mut e = event_named("batt");
    e.conditions = ConditionsConfig {
        trigger_on: vec!["Percentage".to_string()],
        debounce_ms: 0,
        require_all: true,
    };
    let msg = message_with(vec![("State", PropValue::U32(2))]);
    let mut table = DebounceTable::new();
    let fired = process_message(&vec![e], "system", &msg, &mut table, 0);
    assert!(fired.is_empty());
}

#[test]
fn any_trigger_fires_on_one_present_property() {
    let mut e = event_named("batt");
    e.conditions = ConditionsConfig {
        trigger_on: vec!["Percentage".to_string(), "State".to_string()],
        debounce_ms: 0,
        require_all: false,
    };
    let msg = message_with(vec![("State", PropValue::U32(2))]);
    let mut table = DebounceTable::new();
    let fired = process_message(&vec![e], "system", &msg, &mut table, 0);
    assert_eq!(fired.len(), 1);
}

#[test]
fn debounce_lets_exactly_one_of_two_close_triggers_through() {
    let mut e = event_named("batt");
    e.conditions.debounce_ms = 1000;
    let events = vec![e];
    let msg = message_with(vec![("Percentage", PropValue::Centi(4200))]);
    let mut table = DebounceTable::new();
    let first = process_message(&events, "system", &msg, &mut table, 100);
    assert_eq!(first.len(), 1);
    let second = process_message(&events, "system", &msg, &mut table, 900);
    assert!(second.is_empty());
    let third = process_message(&events, "system", &msg, &mut table, 1100);
    assert_eq!(third.len(), 1);
}

#[test]
fn wrong_bus_or_disabled_event_does_not_fire() {
    let e = event_named("batt");
    let msg = message_with(vec![("Percentage", PropValue::Centi(4200))]);
    let mut table = DebounceTable::new();
    assert!(process_message(&vec![e.clone()], "session", &msg, &mut table, 0).is_empty());
    let mut d = e;
    d.enabled = false;
    assert!(process_message(&vec![d], "system", &msg, &mut table, 0).is_empty());
}

#[test]
fn arg0_must_match_when_expected() {
    let mut e = event_named("batt");
    e.match_rule.arg0 = Some("org.freedesktop.UPower.Device".to_string());
    let mut msg = message_with(vec![("Percentage", PropValue::Centi(4200))]);
    let mut table = DebounceTable::new();
    assert!(process_message(&vec![e.clone()], "system", &msg, &mut table, 0).is_empty());
    msg.arg0 = Some("org.freedesktop.UPower.Device".to_string());
    assert_eq!(process_message(&vec![e], "system", &msg, &mut table, 0).len(), 1);
}

#[test]
fn extraction_widens_numbers_and_maps_states() {
    let e = event_named("batt");
    let msg = message_with(vec![
        ("Percentage", PropValue::Centi(4250)),
        ("State", PropValue::U32(2)),
    ]);
    let mut table = DebounceTable::new();
    let fired = process_message(&vec![e], "system", &msg, &mut table, 0);
    assert_eq!(fired.len(), 1);
    let pending = &fired[0].1;
    assert!(!pending.needs_battery_query);
    assert_eq!(pending.percentage, Some(4250));
    assert_eq!(pending.state.as_deref(), Some("discharging"));
}

#[test]
fn battery_paths_request_the_follow_up_query() {
    let e = event_named("batt");
    let mut msg = message_with(vec![
        ("Percentage", PropValue::Centi(4250)),
        ("State", PropValue::U32(1)),
    ]);
    msg.path = "/org/freedesktop/UPower/devices/battery_BAT0".to_string();
    let mut table = DebounceTable::new();
    let fired = process_message(&vec![e], "system", &msg, &mut table, 0);
    assert_eq!(fired.len(), 1);
    let pending = &fired[0].1;
    assert!(pending.needs_battery_query);
    // the fallback still holds what the changed set yields
    assert_eq!(pending.percentage, Some(4250));
    assert_eq!(pending.state.as_deref(), Some("charging"));
}

#[test]
fn battery_fallback_uses_upower_labels() {
    let props: Vec<(String, PropValue)> = vec![
        ("Percentage".to_string(), PropValue::U32(85)),
        ("State".to_string(), PropValue::U32(4)),
    ];
    let (pct, state) = battery_fallback(&props);
    assert_eq!(pct, Some(8500));
    assert_eq!(state.as_deref(), Some("full"));
}

#[test]
fn extract_centi_widens_every_integer_kind() {
    assert_eq!(extract_centi(&PropValue::Centi(4250)), Some(4250));
    assert_eq!(extract_centi(&PropValue::U32(42)), Some(4200));
    assert_eq!(extract_centi(&PropValue::I32(-3)), Some(-300));
    assert_eq!(extract_centi(&PropValue::U64(7)), Some(700));
    assert_eq!(extract_centi(&PropValue::I64(9)), Some(900));
    assert_eq!(extract_centi(&PropValue::U64(u64::MAX)), None);
    assert_eq!(extract_centi(&PropValue::Str("42".to_string())), None);
    assert_eq!(extract_centi(&PropValue::Bool(true)), None);
}

#[test]
fn extract_u32_reinterprets_signed_values() {
    assert_eq!(extract_u32(&PropValue::U32(7)), Some(7));
    assert_eq!(extract_u32(&PropValue::I32(7)), Some(7));
    assert_eq!(extract_u32(&PropValue::I32(-1)), Some(u32::MAX));
    assert_eq!(extract_u32(&PropValue::U64(7)), None);
}

#[test]
fn value_rendering_maps_states_and_rounds() {
    let map = vec![("1".to_string(), "charging".to_string())];
    assert_eq!(value_to_string(&PropValue::U32(1), &map), "charging");
    assert_eq!(value_to_string(&PropValue::U32(3), &map), "3");
    assert_eq!(value_to_string(&PropValue::Centi(4250), &map), "43");
    assert_eq!(value_to_string(&PropValue::Centi(4249), &map), "42");
    assert_eq!(value_to_string(&PropValue::Str("ok".to_string()), &map), "ok");
    assert_eq!(value_to_string(&PropValue::Bool(true), &map), "true");
    assert_eq!(value_to_string(&PropValue::I64(-12), &map), "-12");
}

#[test]
fn upower_state_labels() {
    assert_eq!(upower_state_to_string(1), "charging");
    assert_eq!(upower_state_to_string(2), "discharging");
    assert_eq!(upower_state_to_string(4), "full");
    assert_eq!(upower_state_to_string(0), "unknown");
    assert_eq!(upower_state_to_string(9), "unknown");
}

#[test]
fn notify_event_formats_its_message() {
    let e = event_named("batt");
    let ev = build_notify_event(&e, Some(8450), Some("discharging".to_string()));
    assert_eq!(ev.event_name, "batt");
    assert_eq!(ev.message, "85%");
    assert_eq!(ev.percentage, Some(8450));
    assert_eq!(ev.state.as_deref(), Some("discharging"));
}

#[test]
fn format_message_substitutes_every_pair() {
    let values = vec![
        ("percentage".to_string(), "85".to_string()),
        ("state".to_string(), "full".to_string()),
    ];
    assert_eq!(format_message("{percentage}% ({state})", &values), "85% (full)");
    assert_eq!(format_message("no tokens", &values), "no tokens");
}

#[test]
fn battery_path_naming_convention() {
    assert!(path_is_battery("/org/freedesktop/UPower/devices/battery_BAT0"));
    assert!(path_is_battery("/devices/BAT1"));
    assert!(!path_is_battery("/org/freedesktop/UPower/devices/line_power_AC"));
}

#[test]
fn builtin_battery_event_shape() {
    let e = builtin_battery_event();
    assert_eq!(e.name, "Battery (built-in)");
    assert!(e.enabled);
    assert_eq!(e.bus, "system");
    assert_eq!(e.match_rule.interface.as_deref(), Some("org.freedesktop.DBus.Properties"));
    assert_eq!(e.match_rule.member.as_deref(), Some("PropertiesChanged"));
    assert_eq!(
        e.match_rule.path_prefix.as_deref(),
        Some("/org/freedesktop/UPower/devices"),
    );
    assert_eq!(e.match_rule.arg0.as_deref(), Some("org.freedesktop.UPower.Device"));
    assert_eq!(e.format.message, "{percentage}%");
    assert_eq!(e.conditions.debounce_ms, 1000);
    assert!(!e.conditions.require_all);
    assert_eq!(e.state_map.len(), 3);
    assert_eq!(e.extract.len(), 2);
}

#[test]
fn event_defaults() {
    assert!(default_enabled());
    assert_eq!(default_bus(), "system");
    assert_eq!(default_debounce(), 0);
    let c = ConditionsConfig::default();
    assert!(c.trigger_on.is_empty());
    assert_eq!(c.debounce_ms, 0);
    assert!(!c.require_all);
}

#[test]
fn debounce_table_tracks_last_trigger_per_rule() {
    let mut t = DebounceTable::new();
    assert_eq!(t.last_trigger("a"), None);
    t.record("a", 10);
    t.record("b", 20);
    assert_eq!(t.last_trigger("a"), Some(10));
    assert_eq!(t.last_trigger("b"), Some(20));
    t.record("a", 30);
    assert_eq!(t.last_trigger("a"), Some(30));
    assert_eq!(t.last_trigger("b"), Some(20));
}
