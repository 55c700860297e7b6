//! Tests of configuration parsing: anchors, keywords, numbers, colors,
//! documents and the legacy format.

use inno::config::{
    Anchor, AppConfig, AppearanceDoc, Animation, BatteryMode, ConfigDocument, FontSlant,
    FontWeight, GeneralDoc, HAnchor, OutputMode, Rgba, SignalDoc, VAnchor, parse_animation,
    parse_battery_mode, parse_font_slant, parse_font_weight, parse_output_mode,
};
use inno::draw::format_text;
use inno::text::{parse_centi, parse_i64, parse_milli, parse_u64, u64_to_string};

#[test]
fn anchor_parse_full_form() {
    let a = Anchor::parse("left, top, 5, 7");
    assert!(matches!(a.h, HAnchor::Left));
    assert!(matches!(a.v, VAnchor::Top));
    assert_eq!(a.margin_h, 5);
    assert_eq!(a.margin_v, 7);
}

#[test]
fn anchor_parse_defaults() {
    let a = Anchor::parse("");
    assert!(matches!(a.h, HAnchor::Center));
    assert!(matches!(a.v, VAnchor::Bottom));
    assert_eq!(a.margin_h, 10);
    assert_eq!(a.margin_v, 10);
    let b = Anchor::parse("RIGHT,center,12");
    assert!(matches!(b.h, HAnchor::Right));
    assert!(matches!(b.v, VAnchor::Center));
    assert_eq!(b.margin_h, 12);
    // a missing second margin copies the first
    assert_eq!(b.margin_v, 12);
    let c = Anchor::parse("left,top,notanumber");
    assert_eq!(c.margin_h, 10);
}

#[test]
fn animation_names() {
    assert_eq!(parse_animation("flicker"), Animation::Flicker);
    assert_eq!(parse_animation("Pulse"), Animation::Pulse);
    assert_eq!(parse_animation("fade"), Animation::Fade);
    assert_eq!(parse_animation("FADEIN"), Animation::Fade);
    assert_eq!(parse_animation("fade-out"), Animation::Fade);
    assert_eq!(parse_animation("slide"), Animation::Slide);
    assert_eq!(parse_animation("bounce"), Animation::Bounce);
    assert_eq!(parse_animation("sparkle"), Animation::Still);
    assert_eq!(parse_animation(""), Animation::Still);
}

#[test]
fn keyword_parsers() {
    assert_eq!(parse_battery_mode("combined"), BatteryMode::Combined);
    assert_eq!(parse_battery_mode("HIGHEST"), BatteryMode::Highest);
    assert_eq!(parse_battery_mode("lowest"), BatteryMode::Lowest);
    assert_eq!(parse_battery_mode("whatever"), BatteryMode::First);
    assert_eq!(parse_font_slant("italic"), FontSlant::Italic);
    assert_eq!(parse_font_slant("Oblique"), FontSlant::Oblique);
    assert_eq!(parse_font_slant("upright"), FontSlant::Normal);
    assert_eq!(parse_font_weight("Bold"), FontWeight::Bold);
    assert_eq!(parse_font_weight("thin"), FontWeight::Normal);
    assert!(matches!(parse_output_mode("all"), OutputMode::All));
    assert!(matches!(parse_output_mode("Primary"), OutputMode::Primary));
    match parse_output_mode("HDMI-1") {
        OutputMode::Named(n) => assert_eq!(n, "HDMI-1"),
        _ => panic!("expected a named output"),
    }
}

#[test]
fn number_parsers() {
    assert_eq!(parse_u64("0"), Some(0));
    assert_eq!(parse_u64("18446744073709551615"), Some(u64::MAX));
    assert_eq!(parse_u64("18446744073709551616"), None);
    assert_eq!(parse_u64(""), None);
    assert_eq!(parse_u64("12a"), None);
    assert_eq!(parse_i64("-42"), Some(-42));
    assert_eq!(parse_i64("-9223372036854775808"), Some(i64::MIN));
    assert_eq!(parse_i64("9223372036854775808"), None);
    assert_eq!(parse_i64("-"), None);
    assert_eq!(parse_centi("20.5"), Some(2050));
    assert_eq!(parse_centi("20"), Some(2000));
    assert_eq!(parse_centi("20."), Some(2000));
    assert_eq!(parse_centi(".5"), Some(50));
    assert_eq!(parse_centi("."), None);
    assert_eq!(parse_centi("20.999"), Some(2099));
    assert_eq!(parse_centi("1.2.3"), None);
    assert_eq!(parse_milli("0.5"), Some(500));
    assert_eq!(parse_milli("1.0"), Some(1000));
    assert_eq!(parse_milli("1"), Some(1000));
    assert_eq!(u64_to_string(0), "0");
    assert_eq!(u64_to_string(907), "907");
}

#[test]
fn color_literals() {
    assert_eq!(
        AppConfig::parse_color("(1.0, 0.5, 0, 0.25)"),
        Some(Rgba { r: 1000, g: 500, b: 0, a: 250 }),
    );
    assert_eq!(AppConfig::parse_color("(1.0, 0.5, 0)"), None);
    // malformed fields are skipped, later ones fill in
    assert_eq!(
        AppConfig::parse_color("(1.0, x, 0.5, 0, 0.25)"),
        Some(Rgba { r: 1000, g: 500, b: 0, a: 250 }),
    );
}

#[test]
fn display_template_substitution() {
    let t = format_text("{icon} {message} {percent}%", "B", "Low battery", 1550);
    assert_eq!(t, "B Low battery 16%");
    let u = format_text("{message}", "B", "Low", 1549);
    assert_eq!(u, "Low");
}

#[test]
fn default_configuration() {
    let c = AppConfig::default();
    assert_eq!(c.font, "monospace");
    assert_eq!(c.font_size, 2400);
    assert_eq!(c.text_color, Rgba { r: 1000, g: 1000, b: 1000, a: 1000 });
    assert_eq!(c.bg_color, Rgba { r: 0, g: 0, b: 0, a: 600 });
    assert!(c.signals.is_empty());
    assert_eq!(c.border_radius, 0);
    assert!(!c.gradient);
    assert_eq!(c.format, "{message} {percent}%");
    assert!(matches!(c.output, OutputMode::Primary));
    assert_eq!(c.battery_mode, BatteryMode::First);
    assert!(c.config_path.is_none());
}

#[test]
fn legacy_signal_line() {
    let cfg = AppConfig::default();
    let colors = vec![("red".to_string(), Rgba { r: 1000, g: 0, b: 0, a: 1000 })];
    let s = cfg
        .parse_legacy_signal("Low battery, !, 30, red, 20, Discharging, pulse, 10, ding.wav", &colors)
        .expect("eight fields parse");
    assert_eq!(s.message, "Low battery");
    assert_eq!(s.icon, "!");
    assert_eq!(s.icon_size, 3000);
    assert_eq!(s.color, Rgba { r: 1000, g: 0, b: 0, a: 1000 });
    assert_eq!(s.threshold, 2000);
    assert_eq!(s.state_filter, "discharging");
    assert_eq!(s.animation, Animation::Pulse);
    assert_eq!(s.duration, 10);
    assert_eq!(s.sound.as_deref(), Some("ding.wav"));
    assert!(cfg.parse_legacy_signal("too,few,fields", &colors).is_none());
    // unknown colors fall back to white, missing numbers to defaults
    let t = cfg
        .parse_legacy_signal("m,i,x,unknown,y,any,none,z", &colors)
        .expect("eight fields parse");
    assert_eq!(t.color, Rgba { r: 1000, g: 1000, b: 1000, a: 1000 });
    assert_eq!(t.icon_size, 2400);
    assert_eq!(t.threshold, 10000);
    assert_eq!(t.duration, 5);
    assert!(t.sound.is_none());
}

#[test]
fn legacy_file_round() {
    let text = "\
# comment line
font = Iosevka
font_size = 18.5
position = left, top, 4
format = {message} at {percent}
gradient = TRUE
border_radius = 6
output = all
battery_mode = combined
warn = (1.0, 0.8, 0, 1.0)
alert = (1.0, 0, 0, 1.0)
text_color = (0.9, 0.9, 0.9, 1.0)
bg_color = (0, 0, 0, 0.5)
signal = Low, !, 24, warn, 20, discharging, fade, 7
signal = Critical, !!, 24, alert, 10, discharging, flicker, 9
not_a_setting
";
    let mut c = AppConfig::default();
    c.load_legacy(text);
    assert_eq!(c.font, "Iosevka");
    assert_eq!(c.font_size, 1850);
    assert!(matches!(c.anchor.h, HAnchor::Left));
    assert!(matches!(c.anchor.v, VAnchor::Top));
    assert_eq!(c.anchor.margin_h, 4);
    assert_eq!(c.format, "{message} at {percent}");
    assert!(c.gradient);
    assert_eq!(c.border_radius, 600);
    assert!(matches!(c.output, OutputMode::All));
    assert_eq!(c.battery_mode, BatteryMode::Combined);
    assert_eq!(c.text_color, Rgba { r: 900, g: 900, b: 900, a: 1000 });
    assert_eq!(c.bg_color, Rgba { r: 0, g: 0, b: 0, a: 500 });
    assert_eq!(c.signals.len(), 2);
    assert_eq!(c.signals[0].message, "Low");
    assert_eq!(c.signals[0].color, Rgba { r: 1000, g: 800, b: 0, a: 1000 });
    assert_eq!(c.signals[0].animation, Animation::Fade);
    assert_eq!(c.signals[0].duration, 7);
    assert_eq!(c.signals[1].message, "Critical");
    assert_eq!(c.signals[1].color, Rgba { r: 1000, g: 0, b: 0, a: 1000 });
    assert_eq!(c.signals[1].animation, Animation::Flicker);
}

#[test]
fn later_legacy_assignments_win() {
    let mut c = AppConfig::default();
    c.load_legacy("font = first\nfont = second\n");
    assert_eq!(c.font, "second");
}

#[test]
fn structured_document_applies_every_present_setting() {
    let doc = ConfigDocument {
        general: Some(GeneralDoc {
            font: Some("Iosevka".to_string()),
            font_size: Some(1850),
            font_slant: Some("italic".to_string()),
            font_weight: Some("bold".to_string()),
            position: Some("right,bottom".to_string()),
            format: Some("{percent}".to_string()),
            output: Some("eDP-1".to_string()),
            battery_mode: Some("lowest".to_string()),
        }),
        appearance: Some(AppearanceDoc {
            text_color: Some(Rgba { r: 900, g: 900, b: 900, a: 1000 }),
            bg_color: None,
            border_radius: Some(450),
            gradient: Some(true),
        }),
        colors: vec![("warn".to_string(), Rgba { r: 1000, g: 800, b: 0, a: 1000 })],
        signal: vec![SignalDoc {
            message: "Low".to_string(),
            icon: "!".to_string(),
            icon_size: None,
            color: "warn".to_string(),
            threshold: 2000,
            state: "Discharging".to_string(),
            animation: "slide".to_string(),
            duration: Some(7),
            sound: None,
        }],
    };
    let mut c = AppConfig::default();
    c.apply_config_file(&doc);
    assert_eq!(c.font, "Iosevka");
    assert_eq!(c.font_size, 1850);
    assert_eq!(c.font_slant, FontSlant::Italic);
    assert_eq!(c.font_weight, FontWeight::Bold);
    assert!(matches!(c.anchor.h, HAnchor::Right));
    assert_eq!(c.format, "{percent}");
    match &c.output {
        OutputMode::Named(n) => assert_eq!(n, "eDP-1"),
        _ => panic!("expected a named output"),
    }
    assert_eq!(c.battery_mode, BatteryMode::Lowest);
    assert_eq!(c.text_color, Rgba { r: 900, g: 900, b: 900, a: 1000 });
    assert_eq!(c.bg_color, Rgba { r: 0, g: 0, b: 0, a: 600 });
    assert_eq!(c.border_radius, 450);
    assert!(c.gradient);
    assert_eq!(c.signals.len(), 1);
    assert_eq!(c.signals[0].message, "Low");
    assert_eq!(c.signals[0].color, Rgba { r: 1000, g: 800, b: 0, a: 1000 });
    assert_eq!(c.signals[0].state_filter, "discharging");
    assert_eq!(c.signals[0].animation, Animation::Slide);
    assert_eq!(c.signals[0].icon_size, 2400);
    assert_eq!(c.signals[0].duration, 7);
}
