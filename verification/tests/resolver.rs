//! Tests of the signal resolver.

use inno::config::{Animation, AppConfig, Rgba, Signal};

fn def(message: &str, threshold_centi: i64, state: &str) -> Signal {
    Signal {
        message: message.to_string(),
        icon: String::new(),
        icon_size: 2400,
        color: Rgba { r: 1000, g: 1000, b: 1000, a: 1000 },
        threshold: threshold_centi,
        state_filter: state.to_string(),
        animation: Animation::Still,
        duration: 5,
        sound: None,
    }
}

fn config_with(signals: Vec<Signal>) -> AppConfig {
    let mut c = AppConfig::default();
    c.signals = signals;
    c
}

#[test]
fn discharging_between_thresholds_picks_the_matching_one() {
    // definitions: Low at 20, Critical at 10; observation 15% discharging
    // matches only Low (15 <= 20, not 15 <= 10)
    let c = config_with(vec![
        def("Low", 2000, "discharging"),
        def("Critical", 1000, "discharging"),
    ]);
    let r = c.find_signal(1500, "discharging").expect("a definition matches");
    assert_eq!(r.message, "Low");
}

#[test]
fn discharging_below_both_picks_smallest_threshold() {
    // observation 5% matches both; the smaller threshold wins
    let c = config_with(vec![
        def("Low", 2000, "discharging"),
        def("Critical", 1000, "discharging"),
    ]);
    let r = c.find_signal(500, "discharging").expect("a definition matches");
    assert_eq!(r.message, "Critical");
}

#[test]
fn charging_below_threshold_matches_nothing() {
    // charging needs percentage >= threshold; 30 >= 50 is false
    let c = config_with(vec![def("High", 5000, "any")]);
    assert!(c.find_signal(3000, "charging").is_none());
}

#[test]
fn charging_picks_largest_matching_threshold() {
    let c = config_with(vec![
        def("Eighty", 8000, "charging"),
        def("Ninety", 9000, "charging"),
    ]);
    let r = c.find_signal(9500, "charging").expect("a definition matches");
    assert_eq!(r.message, "Ninety");
}

#[test]
fn equal_thresholds_first_defined_wins() {
    let c = config_with(vec![
        def("first", 2000, "discharging"),
        def("second", 2000, "discharging"),
    ]);
    let r = c.find_signal(1000, "discharging").expect("a definition matches");
    assert_eq!(r.message, "first");
}

#[test]
fn empty_definition_list_matches_nothing() {
    let c = config_with(Vec::new());
    assert!(c.find_signal(1500, "discharging").is_none());
}

#[test]
fn state_filter_is_case_insensitive() {
    let c = config_with(vec![def("Low", 2000, "Discharging")]);
    let r = c.find_signal(1500, "DISCHARGING").expect("a definition matches");
    assert_eq!(r.message, "Low");
}

#[test]
fn any_filter_matches_every_state() {
    let c = config_with(vec![def("Generic", 2000, "any")]);
    assert!(c.find_signal(1500, "discharging").is_some());
    assert!(c.find_signal(1500, "unknown").is_some());
    // charging direction still applies its threshold test
    assert!(c.find_signal(1500, "charging").is_none());
    assert!(c.find_signal(2500, "charging").is_some());
}

#[test]
fn fractional_percentage_respects_threshold_boundary() {
    let c = config_with(vec![def("Low", 2000, "discharging")]);
    assert!(c.find_signal(2000, "discharging").is_some());
    assert!(c.find_signal(2001, "discharging").is_none());
}
