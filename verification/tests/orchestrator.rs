//! Tests of the orchestrator's decision core.

use inno::config::{Animation, AppConfig, Rgba, Signal};
use inno::control::{apply_reload, NotificationState};
use inno::dbus::NotifyEvent;

fn def(message: &str, threshold_centi: i64, state: &str, kind: Animation) -> Signal {
    Signal {
        message: message.to_string(),
        icon: String::new(),
        icon_size: 2400,
        color: Rgba { r: 1000, g: 1000, b: 1000, a: 1000 },
        threshold: threshold_centi,
        state_filter: state.to_string(),
        animation: kind,
        duration: 7,
        sound: Some("ding.wav".to_string()),
    }
}

fn config_with(signals: Vec<Signal>) -> AppConfig {
    let mut c = AppConfig::default();
    c.signals = signals;
    c
}

fn observation(pct: Option<i64>, state: Option<&str>) -> NotifyEvent {
    NotifyEvent {
        event_name: "batt".to_string(),
        message: String::new(),
        values: Vec::new(),
        percentage: pct,
        state: state.map(|s| s.to_string()),
    }
}

#[test]
fn first_matching_observation_renders() {
    let config = config_with(vec![def("Low", 2000, "discharging", Animation::Fade)]);
    let mut st = NotificationState::new();
    let d = st
        .on_observation(&config, &observation(Some(1500), Some("discharging")))
        .expect("a render is due");
    assert_eq!(d.text, "Low 15%");
    assert_eq!(d.signal_index, 0);
    assert_eq!(d.duration, 7);
    assert_eq!(d.sound.as_deref(), Some("ding.wav"));
    assert!(d.animating);
    assert_eq!(st.current_text.as_deref(), Some("Low 15%"));
    assert!(st.animating);
    assert_eq!(st.current_percentage, Some(1500));
    assert_eq!(st.current_state.as_deref(), Some("discharging"));
}

#[test]
fn unchanged_observation_is_suppressed() {
    let config = config_with(vec![def("Low", 2000, "discharging", Animation::Still)]);
    let mut st = NotificationState::new();
    assert!(st.on_observation(&config, &observation(Some(1500), Some("discharging"))).is_some());
    // same state, same resolved signal: redundant bus chatter
    assert!(st.on_observation(&config, &observation(Some(1400), Some("discharging"))).is_none());
    // a state change renders again
    assert!(st.on_observation(&config, &observation(Some(1400), Some("charging"))).is_none());
    // back to discharging: the state changed again and the signal matches
    assert!(st.on_observation(&config, &observation(Some(1400), Some("discharging"))).is_some());
}

#[test]
fn signal_change_renders_even_within_one_state() {
    let config = config_with(vec![
        def("Low", 2000, "discharging", Animation::Still),
        def("Critical", 1000, "discharging", Animation::Flicker),
    ]);
    let mut st = NotificationState::new();
    assert!(st.on_observation(&config, &observation(Some(1500), Some("discharging"))).is_some());
    let d = st
        .on_observation(&config, &observation(Some(900), Some("discharging")))
        .expect("the resolved signal changed");
    assert_eq!(d.text, "Critical 9%");
    assert!(d.animating);
}

#[test]
fn missing_fields_default_to_full_and_unknown() {
    let config = config_with(vec![def("AnyState", 9900, "any", Animation::Still)]);
    let mut st = NotificationState::new();
    // percentage defaults to 100.00, state to unknown: 100 <= 99 fails
    assert!(st.on_observation(&config, &observation(None, None)).is_none());
    assert_eq!(st.current_percentage, Some(10000));
    assert_eq!(st.current_state.as_deref(), Some("unknown"));
    assert_eq!(st.prev_state.as_deref(), Some("unknown"));
}

#[test]
fn no_signal_still_updates_history() {
    let config = config_with(vec![def("Low", 2000, "discharging", Animation::Still)]);
    let mut st = NotificationState::new();
    assert!(st.on_observation(&config, &observation(Some(5000), Some("discharging"))).is_none());
    assert_eq!(st.prev_state.as_deref(), Some("discharging"));
    assert!(st.prev_signal_msg.is_none());
    assert!(st.current_text.is_none());
}

#[test]
fn animation_tick_advances_and_redraws() {
    let config = config_with(vec![def("Low", 2000, "discharging", Animation::Fade)]);
    let mut st = NotificationState::new();
    st.on_observation(&config, &observation(Some(1500), Some("discharging"))).unwrap();
    let t = st.on_animation_tick(&config).expect("animating");
    assert_eq!(t.text, "Low 15%");
    assert_eq!(t.signal_index, 0);
    assert_eq!(st.draw_state.frame, 1);
    assert_eq!(st.draw_state.alpha, 50);
    let t2 = st.on_animation_tick(&config).expect("still animating");
    assert_eq!(t2.text, "Low 15%");
    assert_eq!(st.draw_state.frame, 2);
    assert_eq!(st.draw_state.alpha, 100);
}

#[test]
fn tick_without_animation_does_nothing() {
    let config = config_with(vec![def("Low", 2000, "discharging", Animation::Still)]);
    let mut st = NotificationState::new();
    st.on_observation(&config, &observation(Some(1500), Some("discharging"))).unwrap();
    assert!(!st.animating);
    assert!(st.on_animation_tick(&config).is_none());
    assert_eq!(st.draw_state.frame, 0);
}

#[test]
fn hide_deadline_clears_what_is_showing() {
    let config = config_with(vec![def("Low", 2000, "discharging", Animation::Fade)]);
    let mut st = NotificationState::new();
    st.on_observation(&config, &observation(Some(1500), Some("discharging"))).unwrap();
    assert!(st.on_hide_deadline());
    assert!(st.current_text.is_none());
    assert!(!st.animating);
    assert_eq!(st.draw_state.frame, 0);
    // nothing showing: nothing to hide
    assert!(!st.on_hide_deadline());
}

#[test]
fn control_show_and_hide() {
    let mut st = NotificationState::new();
    st.on_control_show("hello".to_string());
    assert_eq!(st.current_text.as_deref(), Some("hello"));
    assert!(!st.animating);
    st.on_control_hide();
    assert!(st.current_text.is_none());
    assert!(!st.animating);
}

#[test]
fn reload_preserves_the_visible_notification() {
    let mut config = config_with(vec![def("Low", 2000, "discharging", Animation::Fade)]);
    let mut st = NotificationState::new();
    st.on_observation(&config, &observation(Some(1500), Some("discharging"))).unwrap();
    st.on_animation_tick(&config).unwrap();
    let text_before = st.current_text.clone();
    let frame_before = st.draw_state.frame;
    let animating_before = st.animating;
    let new_config = config_with(Vec::new());
    apply_reload(&mut config, &mut st, new_config);
    // the rule set was swapped wholesale
    assert!(config.signals.is_empty());
    // the notification state was not touched
    assert_eq!(st.current_text, text_before);
    assert_eq!(st.draw_state.frame, frame_before);
    assert_eq!(st.animating, animating_before);
}
