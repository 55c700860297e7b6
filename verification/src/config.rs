//! Runtime configuration: appearance, anchoring, signal definitions and the
//! signal resolver.
//!
//! Fractional configuration values are fixed-point integers: percentages,
//! thresholds and sizes in hundredths, color channels in thousandths of the
//! unit range.

use vstd::prelude::*;
use crate::text::{
    lower, spec_parse_i64, spec_split_trim, to_lower, split_trim, parse_i64,
    str_eq,
};

verus! {

/// Default margin between the notification and the screen edge, in pixels.
pub const DEFAULT_MARGIN: i32 = 10;

/// Default font size, in hundredths of a point.
pub const DEFAULT_FONT_SIZE: i64 = 2400;

/// Default icon size, in hundredths of a point.
pub const DEFAULT_ICON_SIZE: i64 = 2400;

/// Animation frames per second.
pub const ANIMATION_FPS: u64 = 30;

/// Milliseconds between animation ticks.
pub const ANIMATION_INTERVAL_MS: u64 = 1000 / ANIMATION_FPS;

/// The idle hide timeout: effectively "never", re-armed after each hide.
pub const HIDE_TIMEOUT_SECS: u64 = 86400;

/// How a notification is animated while visible.
#[derive(Clone, Copy, Debug, PartialEq, Eq, Structural)]
pub enum Animation {
    Still,
    Flicker,
    Pulse,
    Fade,
    Slide,
    Bounce,
}

/// Which output the notification surface is placed on.
#[derive(Clone, Debug)]
pub enum OutputMode {
    Primary,
    All,
    Named(String),
}

/// How several batteries are combined into one reading.
#[derive(Clone, Copy, Debug, PartialEq, Eq, Structural)]
pub enum BatteryMode {
    First,
    Combined,
    Highest,
    Lowest,
}

/// Horizontal anchoring of the surface.
#[derive(Clone, Copy, Debug, PartialEq, Eq, Structural)]
pub enum HAnchor {
    Left,
    Center,
    Right,
}

/// Vertical anchoring of the surface.
#[derive(Clone, Copy, Debug, PartialEq, Eq, Structural)]
pub enum VAnchor {
    Top,
    Center,
    Bottom,
}

/// Font slant, mirroring what the renderer offers.
#[derive(Clone, Copy, Debug, PartialEq, Eq, Structural)]
pub enum FontSlant {
    Normal,
    Italic,
    Oblique,
}

/// Font weight, mirroring what the renderer offers.
#[derive(Clone, Copy, Debug, PartialEq, Eq, Structural)]
pub enum FontWeight {
    Normal,
    Bold,
}

/// Where the notification sits on screen.
#[derive(Clone, Copy, Debug, PartialEq, Eq, Structural)]
pub struct Anchor {
    pub h: HAnchor,
    pub v: VAnchor,
    pub margin_h: i32,
    pub margin_v: i32,
}

impl Default for Anchor {
    /// Bottom center with the default margins.
    fn default() -> (r: Self)
        ensures
            r == (Anchor {
                h: HAnchor::Center,
                v: VAnchor::Bottom,
                margin_h: DEFAULT_MARGIN,
                margin_v: DEFAULT_MARGIN,
            }),
    {
        Anchor { h: HAnchor::Center, v: VAnchor::Bottom, margin_h: 10, margin_v: 10 }
    }
}

/// An RGBA color; each channel in thousandths of the unit range.
#[derive(Clone, Copy, Debug, PartialEq, Eq, Structural)]
pub struct Rgba {
    pub r: i64,
    pub g: i64,
    pub b: i64,
    pub a: i64,
}

/// `spec_parse_i64` restricted to `i32`, as a plain integer field parse.
pub open spec fn spec_parse_i32(s: Seq<char>) -> Option<i32> {
    match spec_parse_i64(s) {
        Some(v) => if i32::MIN <= v <= i32::MAX {
            Some(v as i32)
        } else {
            None
        },
        None => None,
    }
}

/// What `Anchor::parse` yields for a given position string.
pub open spec fn spec_anchor_parse(s: Seq<char>) -> Anchor {
    let parts = spec_split_trim(s, ',');
    let h = if parts.len() >= 1 && lower(parts[0]) == "left"@ {
        HAnchor::Left
    } else if parts.len() >= 1 && lower(parts[0]) == "right"@ {
        HAnchor::Right
    } else {
        HAnchor::Center
    };
    let v = if parts.len() >= 2 && lower(parts[1]) == "top"@ {
        VAnchor::Top
    } else if parts.len() >= 2 && lower(parts[1]) == "center"@ {
        VAnchor::Center
    } else {
        VAnchor::Bottom
    };
    let margin_h = if parts.len() >= 3 && spec_parse_i32(parts[2]) is Some {
        spec_parse_i32(parts[2])->Some_0
    } else {
        DEFAULT_MARGIN
    };
    let margin_v = if parts.len() >= 4 && spec_parse_i32(parts[3]) is Some {
        spec_parse_i32(parts[3])->Some_0
    } else {
        margin_h
    };
    Anchor { h, v, margin_h, margin_v }
}

impl Anchor {
    /// Parse a position string: horizontal anchor, vertical anchor and up to
    /// two margins, separated by commas; missing or malformed fields fall
    /// back to their defaults.
    pub fn parse(s: &str) -> (r: Self)
        ensures
            r == spec_anchor_parse(s@),
    {
        let parts = split_trim(s, ',');
        proof {
            assert(parts.deep_view().len() == parts@.len());
            assert(forall|i: int|
                0 <= i < parts@.len() ==> parts.deep_view()[i] == #[trigger] parts@[i]@);
        }
        let p0 = to_lower(parts[0].as_str());
        let h = if str_eq(p0.as_str(), "left") {
            HAnchor::Left
        } else if str_eq(p0.as_str(), "right") {
            HAnchor::Right
        } else {
            HAnchor::Center
        };
        let v = if parts.len() >= 2 {
            let p1 = to_lower(parts[1].as_str());
            if str_eq(p1.as_str(), "top") {
                VAnchor::Top
            } else if str_eq(p1.as_str(), "center") {
                VAnchor::Center
            } else {
                VAnchor::Bottom
            }
        } else {
            VAnchor::Bottom
        };
        let margin_h = if parts.len() >= 3 {
            match parse_i32(parts[2].as_str()) {
                Some(m) => m,
                None => DEFAULT_MARGIN,
            }
        } else {
            DEFAULT_MARGIN
        };
        let margin_v = if parts.len() >= 4 {
            match parse_i32(parts[3].as_str()) {
                Some(m) => m,
                None => margin_h,
            }
        } else {
            margin_h
        };
        Anchor { h, v, margin_h, margin_v }
    }
}

/// Parse a signed integer that must fit an `i32`.
pub fn parse_i32(s: &str) -> (r: Option<i32>)
    ensures
        r == spec_parse_i32(s@),
{
    match parse_i64(s) {
        Some(v) => {
            if i32::MIN as i64 <= v && v <= i32::MAX as i64 {
                Some(v as i32)
            } else {
                None
            }
        },
        None => None,
    }
}

/// What `parse_animation` yields: the animation kind named by the string,
/// ASCII case-insensitively, with unknown names mapping to `Still`.
pub open spec fn spec_parse_animation(s: Seq<char>) -> Animation {
    let l = lower(s);
    if l == "flicker"@ {
        Animation::Flicker
    } else if l == "pulse"@ {
        Animation::Pulse
    } else if l == "fade"@ || l == "fadein"@ || l == "fadeout"@ || l == "fade-in"@ || l
        == "fade-out"@ {
        Animation::Fade
    } else if l == "slide"@ {
        Animation::Slide
    } else if l == "bounce"@ {
        Animation::Bounce
    } else {
        Animation::Still
    }
}

/// Parse an animation name from configuration.
pub fn parse_animation(s: &str) -> (r: Animation)
    ensures
        r == spec_parse_animation(s@),
{
    let l = to_lower(s);
    if str_eq(l.as_str(), "flicker") {
        Animation::Flicker
    } else if str_eq(l.as_str(), "pulse") {
        Animation::Pulse
    } else if str_eq(l.as_str(), "fade") || str_eq(l.as_str(), "fadein") || str_eq(
        l.as_str(),
        "fadeout",
    ) || str_eq(l.as_str(), "fade-in") || str_eq(l.as_str(), "fade-out") {
        Animation::Fade
    } else if str_eq(l.as_str(), "slide") {
        Animation::Slide
    } else if str_eq(l.as_str(), "bounce") {
        Animation::Bounce
    } else {
        Animation::Still
    }
}

/// Parse an output-mode name: `all`, `primary`, or the name of an output.
pub fn parse_output_mode(s: &str) -> (r: OutputMode)
    ensures
        match r {
            OutputMode::All => lower(s@) == "all"@,
            OutputMode::Primary => lower(s@) == "primary"@,
            OutputMode::Named(name) => name@ == s@ && lower(s@) != "all"@ && lower(s@)
                != "primary"@,
        },
{
    let l = to_lower(s);
    if str_eq(l.as_str(), "all") {
        OutputMode::All
    } else if str_eq(l.as_str(), "primary") {
        OutputMode::Primary
    } else {
        OutputMode::Named(String::from_str(s))
    }
}

/// What `parse_battery_mode` yields, ASCII case-insensitively, with unknown
/// names mapping to `First`.
pub open spec fn spec_parse_battery_mode(s: Seq<char>) -> BatteryMode {
    let l = lower(s);
    if l == "combined"@ {
        BatteryMode::Combined
    } else if l == "highest"@ {
        BatteryMode::Highest
    } else if l == "lowest"@ {
        BatteryMode::Lowest
    } else {
        BatteryMode::First
    }
}

/// Parse a battery-mode name from configuration.
pub fn parse_battery_mode(s: &str) -> (r: BatteryMode)
    ensures
        r == spec_parse_battery_mode(s@),
{
    let l = to_lower(s);
    if str_eq(l.as_str(), "combined") {
        BatteryMode::Combined
    } else if str_eq(l.as_str(), "highest") {
        BatteryMode::Highest
    } else if str_eq(l.as_str(), "lowest") {
        BatteryMode::Lowest
    } else {
        BatteryMode::First
    }
}

/// What `parse_font_slant` yields, ASCII case-insensitively.
pub open spec fn spec_parse_font_slant(s: Seq<char>) -> FontSlant {
    let l = lower(s);
    if l == "italic"@ {
        FontSlant::Italic
    } else if l == "oblique"@ {
        FontSlant::Oblique
    } else {
        FontSlant::Normal
    }
}

/// Parse a font-slant name from configuration.
pub fn parse_font_slant(s: &str) -> (r: FontSlant)
    ensures
        r == spec_parse_font_slant(s@),
{
    let l = to_lower(s);
    if str_eq(l.as_str(), "italic") {
        FontSlant::Italic
    } else if str_eq(l.as_str(), "oblique") {
        FontSlant::Oblique
    } else {
        FontSlant::Normal
    }
}

/// What `parse_font_weight` yields, ASCII case-insensitively.
pub open spec fn spec_parse_font_weight(s: Seq<char>) -> FontWeight {
    if lower(s) == "bold"@ {
        FontWeight::Bold
    } else {
        FontWeight::Normal
    }
}

/// Parse a font-weight name from configuration.
pub fn parse_font_weight(s: &str) -> (r: FontWeight)
    ensures
        r == spec_parse_font_weight(s@),
{
    let l = to_lower(s);
    if str_eq(l.as_str(), "bold") {
        FontWeight::Bold
    } else {
        FontWeight::Normal
    }
}

/// One prioritized signal definition: the visual treatment of a
/// percentage/state condition.
#[derive(Clone, Debug)]
pub struct Signal {
    pub message: String,
    pub icon: String,
    /// Icon size in hundredths of a point.
    pub icon_size: i64,
    pub color: Rgba,
    /// Threshold in hundredths of a percent.
    pub threshold: i64,
    /// Lower-case state filter, or `any`.
    pub state_filter: String,
    pub animation: Animation,
    /// Seconds the notification stays up.
    pub duration: u64,
    /// Sound file to play when the signal fires.
    pub sound: Option<String>,
}

/// The full runtime configuration.
#[derive(Clone, Debug)]
pub struct AppConfig {
    pub font: String,
    /// Font size in hundredths of a point.
    pub font_size: i64,
    pub font_slant: FontSlant,
    pub font_weight: FontWeight,
    pub anchor: Anchor,
    pub text_color: Rgba,
    pub bg_color: Rgba,
    pub signals: Vec<Signal>,
    /// Corner radius in hundredths of a pixel.
    pub border_radius: i64,
    pub gradient: bool,
    /// Display template with `{icon}`, `{message}` and `{percent}` tokens.
    pub format: String,
    pub output: OutputMode,
    pub battery_mode: BatteryMode,
    pub config_path: Option<String>,
}

impl Default for AppConfig {
    /// White text on translucent black, monospace, bottom center, with no
    /// signal definitions.
    fn default() -> (r: Self)
        ensures
            r.font@ == "monospace"@,
            r.font_size == DEFAULT_FONT_SIZE,
            r.font_slant == FontSlant::Normal,
            r.font_weight == FontWeight::Normal,
            r.anchor == (Anchor {
                h: HAnchor::Center,
                v: VAnchor::Bottom,
                margin_h: DEFAULT_MARGIN,
                margin_v: DEFAULT_MARGIN,
            }),
            r.text_color == (Rgba { r: 1000, g: 1000, b: 1000, a: 1000 }),
            r.bg_color == (Rgba { r: 0, g: 0, b: 0, a: 600 }),
            r.signals@.len() == 0,
            r.border_radius == 0,
            r.gradient == false,
            r.format@ == "{message} {percent}%"@,
            r.output is Primary,
            r.battery_mode == BatteryMode::First,
            r.config_path is None,
    {
        AppConfig {
            font: String::from_str("monospace"),
            font_size: DEFAULT_FONT_SIZE,
            font_slant: FontSlant::Normal,
            font_weight: FontWeight::Normal,
            anchor: Anchor::default(),
            text_color: Rgba { r: 1000, g: 1000, b: 1000, a: 1000 },
            bg_color: Rgba { r: 0, g: 0, b: 0, a: 600 },
            signals: Vec::new(),
            border_radius: 0,
            gradient: false,
            format: String::from_str("{message} {percent}%"),
            output: OutputMode::Primary,
            battery_mode: BatteryMode::First,
            config_path: None,
        }
    }
}

/// The channel values found in a color literal's fields: each field that
/// parses as a non-negative decimal contributes its thousandths value, in
/// order; malformed fields are skipped.
pub open spec fn spec_color_values(parts: Seq<Seq<char>>) -> Seq<i64>
    decreases parts.len(),
{
    if parts.len() == 0 {
        Seq::<i64>::empty()
    } else {
        let prev = spec_color_values(parts.drop_last());
        match crate::text::spec_parse_fixed_i64(parts.last(), 3) {
            Some(v) => prev.push(v),
            None => prev,
        }
    }
}

/// What `parse_color` yields for a `(r, g, b, a)` literal: the first four
/// parseable channel values, in thousandths, or nothing when fewer than
/// four fields parse.
pub open spec fn spec_parse_color(s: Seq<char>) -> Option<Rgba> {
    let inner = crate::text::trim_back_char(crate::text::trim_front_char(s, '('), ')');
    let vals = spec_color_values(spec_split_trim(inner, ','));
    if vals.len() >= 4 {
        Some(Rgba { r: vals[0], g: vals[1], b: vals[2], a: vals[3] })
    } else {
        None
    }
}

impl AppConfig {
    /// Parse a `(r, g, b, a)` color literal with channels in the unit
    /// range, into thousandths.
    pub fn parse_color(value: &str) -> (r: Option<Rgba>)
        ensures
            r == spec_parse_color(value@),
    {
        let inner = crate::text::trim_matching(value, '(', ')');
        let parts = crate::text::split_trim(inner, ',');
        let ghost sparts = spec_split_trim(inner@, ',');
        let mut vals: Vec<i64> = Vec::new();
        let mut i: usize = 0;
        proof {
            assert(parts.deep_view().len() == parts@.len());
            assert(forall|j: int|
                0 <= j < parts@.len() ==> parts.deep_view()[j] == #[trigger] parts@[j]@);
        }
        while i < parts.len()
            invariant
                0 <= i <= parts@.len(),
                parts.deep_view() == sparts,
                forall|j: int|
                    0 <= j < parts@.len() ==> parts.deep_view()[j] == #[trigger] parts@[j]@,
                vals@ == spec_color_values(sparts.take(i as int)),
            decreases parts@.len() - i,
        {
            proof {
                assert(sparts.take(i + 1 as int).drop_last() =~= sparts.take(i as int));
                assert(sparts.take(i + 1 as int).last() == sparts[i as int]);
            }
            match crate::text::parse_milli(parts[i].as_str()) {
                Some(v) => {
                    vals.push(v);
                },
                None => {},
            }
            i = i + 1;
        }
        proof {
            assert(sparts.take(parts@.len() as int) =~= sparts);
        }
        if vals.len() >= 4 {
            Some(Rgba { r: vals[0], g: vals[1], b: vals[2], a: vals[3] })
        } else {
            None
        }
    }
}

/// First color stored under a name in a named-color list.
pub open spec fn spec_color_get(m: Seq<(String, Rgba)>, k: Seq<char>) -> Option<Rgba>
    decreases m.len(),
{
    if m.len() == 0 {
        None
    } else if m[0].0@ == k {
        Some(m[0].1)
    } else {
        spec_color_get(m.drop_first(), k)
    }
}

/// Look a named color up.
pub fn color_get(m: &Vec<(String, Rgba)>, k: &str) -> (r: Option<Rgba>)
    ensures
        r == spec_color_get(m@, k@),
{
    let n = m.len();
    let mut i: usize = 0;
    proof {
        assert(m@.skip(0) =~= m@);
    }
    while i < n
        invariant
            0 <= i <= n,
            n == m@.len(),
            spec_color_get(m@, k@) == spec_color_get(m@.skip(i as int), k@),
        decreases n - i,
    {
        proof {
            assert(m@.skip(i as int)[0] == m@[i as int]);
            assert(m@.skip(i as int).drop_first() =~= m@.skip(i + 1 as int));
        }
        if str_eq(m[i].0.as_str(), k) {
            return Some(m[i].1);
        }
        i = i + 1;
    }
    None
}

/// The color a legacy signal field names: a named color, a color literal,
/// or white.
pub open spec fn spec_legacy_color(colors: Seq<(String, Rgba)>, field: Seq<char>) -> Rgba {
    match spec_color_get(colors, field) {
        Some(c) => c,
        None => match spec_parse_color(field) {
            Some(c) => c,
            None => Rgba { r: 1000, g: 1000, b: 1000, a: 1000 },
        },
    }
}

/// The field-wise relation between a legacy `signal=` line's fields and
/// the signal definition built from it.
pub open spec fn spec_legacy_signal_ok(
    parts: Seq<Seq<char>>,
    colors: Seq<(String, Rgba)>,
    sig: Signal,
) -> bool {
    &&& parts.len() >= 8
    &&& sig.message@ == parts[0]
    &&& sig.icon@ == parts[1]
    &&& sig.icon_size == match crate::text::spec_parse_fixed_i64(parts[2], 2) {
        Some(v) => v,
        None => DEFAULT_ICON_SIZE,
    }

    &&& sig.color == spec_legacy_color(colors, parts[3])
    &&& sig.threshold == match crate::text::spec_parse_fixed_i64(parts[4], 2) {
        Some(v) => v,
        None => 10000i64,
    }
    &&& sig.state_filter@ == lower(parts[5])
    &&& sig.animation == spec_parse_animation(parts[6])
    &&& sig.duration == match crate::text::spec_parse_u64(parts[7]) {
        Some(v) => v,
        None => 5u64,
    }
    &&& match sig.sound {
        Some(s) => parts.len() >= 9 && parts[8].len() > 0 && s@ == parts[8],
        None => parts.len() < 9 || parts[8].len() == 0,
    }
}

impl AppConfig {
    /// Parse one legacy `signal=` line: message, icon, icon size, color,
    /// threshold, state filter, animation, duration and optional sound,
    /// comma-separated; malformed numeric fields fall back to defaults,
    /// and a line with fewer than eight fields is rejected.
    pub fn parse_legacy_signal(&self, value: &str, colors: &Vec<(String, Rgba)>) -> (r: Option<
        Signal,
    >)
        ensures
            r is Some <==> spec_split_trim(value@, ',').len() >= 8,
            r matches Some(sig) ==> spec_legacy_signal_ok(
                spec_split_trim(value@, ','),
                colors@,
                sig,
            ),
    {
        let parts = crate::text::split_trim(value, ',');
        proof {
            assert(parts.deep_view().len() == parts@.len());
            assert(forall|j: int|
                0 <= j < parts@.len() ==> parts.deep_view()[j] == #[trigger] parts@[j]@);
        }
        if parts.len() < 8 {
            return None;
        }
        let color = match color_get(colors, parts[3].as_str()) {
            Some(c) => c,
            None => match Self::parse_color(parts[3].as_str()) {
                Some(c) => c,
                None => Rgba { r: 1000, g: 1000, b: 1000, a: 1000 },
            },
        };
        let icon_size = match crate::text::parse_centi(parts[2].as_str()) {
            Some(v) => v,
            None => DEFAULT_ICON_SIZE,
        };
        let threshold = match crate::text::parse_centi(parts[4].as_str()) {
            Some(v) => v,
            None => 10000,
        };
        let duration = match crate::text::parse_u64(parts[7].as_str()) {
            Some(v) => v,
            None => 5,
        };
        let sound: Option<String> = if parts.len() >= 9 {
            if parts[8].as_str().unicode_len() > 0 {
                Some(parts[8].clone())
            } else {
                None
            }
        } else {
            None
        };
        Some(
            Signal {
                message: parts[0].clone(),
                icon: parts[1].clone(),
                icon_size,
                color,
                threshold,
                state_filter: to_lower(parts[5].as_str()),
                animation: parse_animation(parts[6].as_str()),
                duration,
                sound,
            },
        )
    }
}

/// The key/value split of one legacy configuration line: nothing for
/// blank lines, comments and lines without `=`; otherwise the trimmed
/// text on either side of the first `=`.
pub open spec fn spec_line_kv(line: Seq<char>) -> Option<(Seq<char>, Seq<char>)> {
    if line.len() == 0 || line[0] == '#' {
        None
    } else {
        let eq = crate::text::find_char(line, '=');
        if eq == -1 {
            None
        } else {
            Some(
                (
                    crate::text::spec_trim(line.take(eq)),
                    crate::text::spec_trim(line.skip(eq + 1)),
                ),
            )
        }
    }
}

/// Split one legacy configuration line at its first `=`.
pub fn line_kv(line: &str) -> (r: Option<(String, String)>)
    ensures
        match r {
            Some(kv) => spec_line_kv(line@) == Some((kv.0@, kv.1@)),
            None => spec_line_kv(line@) is None,
        },
{
    let n = line.unicode_len();
    if n == 0 {
        return None;
    }
    if line.get_char(0) == '#' {
        return None;
    }
    let mut eq: usize = 0;
    let mut found = false;
    while eq < n
        invariant_except_break
            0 <= eq <= n,
            n == line@.len(),
            !found,
            forall|j: int| 0 <= j < eq ==> line@[j] != '=',
        ensures
            0 <= eq <= n,
            n == line@.len(),
            forall|j: int| 0 <= j < eq ==> line@[j] != '=',
            found ==> eq < n && line@[eq as int] == '=',
            !found ==> eq == n,
        decreases n - eq,
    {
        if line.get_char(eq) == '=' {
            found = true;
            break ;
        }
        eq = eq + 1;
    }
    proof {
        crate::text::lemma_find_char(line@, '=');
        if found {
            assert(crate::text::find_char(line@, '=') == eq as int);
        } else {
            assert(crate::text::find_char(line@, '=') == -1);
        }
    }
    if !found {
        return None;
    }
    let key_raw = line.substring_char(0, eq);
    let val_raw = line.substring_char(eq + 1, n);
    proof {
        assert(key_raw@ =~= line@.take(eq as int));
        assert(val_raw@ =~= line@.skip(eq as int + 1));
    }
    let key = String::from_str(crate::text::trim(key_raw));
    let val = String::from_str(crate::text::trim(val_raw));
    Some((key, val))
}

/// The color definition a legacy line makes, if any: a key whose value is
/// a parenthesized color literal that parses.
pub open spec fn spec_legacy_color_def(line: Seq<char>) -> Option<(Seq<char>, Rgba)> {
    match spec_line_kv(line) {
        Some(kv) => {
            let v = kv.1;
            if v.len() > 0 && v[0] == '(' && v.last() == ')' && spec_parse_color(v) is Some {
                Some((kv.0, spec_parse_color(v)->Some_0))
            } else {
                None
            }
        },
        None => None,
    }
}

/// The color a name denotes after the collection pass: the latest
/// definition of the name wins.
pub open spec fn spec_legacy_colors_get(lines: Seq<Seq<char>>, key: Seq<char>) -> Option<Rgba>
    decreases lines.len(),
{
    if lines.len() == 0 {
        None
    } else {
        match spec_legacy_color_def(lines.last()) {
            Some(def) => if def.0 == key {
                Some(def.1)
            } else {
                spec_legacy_colors_get(lines.drop_last(), key)
            },
            None => spec_legacy_colors_get(lines.drop_last(), key),
        }
    }
}

/// The values of the accepted `signal=` lines, in order of appearance.
pub open spec fn spec_legacy_signal_values(lines: Seq<Seq<char>>) -> Seq<Seq<char>>
    decreases lines.len(),
{
    if lines.len() == 0 {
        Seq::<Seq<char>>::empty()
    } else {
        let prev = spec_legacy_signal_values(lines.drop_last());
        match spec_line_kv(lines.last()) {
            Some(kv) => if kv.0 == "signal"@ && spec_split_trim(kv.1, ',').len() >= 8 {
                prev.push(kv.1)
            } else {
                prev
            },
            None => prev,
        }
    }
}

/// The latest value assigned to a key over the lines, if any.
pub open spec fn spec_last_value(lines: Seq<Seq<char>>, key: Seq<char>) -> Option<Seq<char>>
    decreases lines.len(),
{
    if lines.len() == 0 {
        None
    } else {
        match spec_line_kv(lines.last()) {
            Some(kv) => if kv.0 == key {
                Some(kv.1)
            } else {
                spec_last_value(lines.drop_last(), key)
            },
            None => spec_last_value(lines.drop_last(), key),
        }
    }
}

/// A hundredths parse with a fallback for malformed values.
pub open spec fn spec_centi_or(v: Seq<char>, d: i64) -> i64 {
    match crate::text::spec_parse_fixed_i64(v, 2) {
        Some(x) => x,
        None => d,
    }
}

/// The output mode a value string denotes.
pub open spec fn spec_output_mode_ok(m: OutputMode, v: Seq<char>) -> bool {
    match m {
        OutputMode::All => lower(v) == "all"@,
        OutputMode::Primary => lower(v) == "primary"@,
        OutputMode::Named(nm) => nm@ == v && lower(v) != "all"@ && lower(v) != "primary"@,
    }
}

/// How every scalar setting of the configuration relates to the legacy
/// lines: the latest assignment of each key wins, with the field's
/// fallback for malformed values; unassigned keys keep their old values.
pub open spec fn spec_legacy_scalars_ok(
    old_cfg: AppConfig,
    new_cfg: AppConfig,
    lines: Seq<Seq<char>>,
) -> bool {
    &&& match spec_last_value(lines, "font"@) {
        Some(v) => new_cfg.font@ == v,
        None => new_cfg.font == old_cfg.font,
    }
    &&& match spec_last_value(lines, "font_size"@) {
        Some(v) => new_cfg.font_size == spec_centi_or(v, DEFAULT_FONT_SIZE),
        None => new_cfg.font_size == old_cfg.font_size,
    }
    &&& match spec_last_value(lines, "font_slant"@) {
        Some(v) => new_cfg.font_slant == spec_parse_font_slant(v),
        None => new_cfg.font_slant == old_cfg.font_slant,
    }
    &&& match spec_last_value(lines, "font_weight"@) {
        Some(v) => new_cfg.font_weight == spec_parse_font_weight(v),
        None => new_cfg.font_weight == old_cfg.font_weight,
    }
    &&& match spec_last_value(lines, "position"@) {
        Some(v) => new_cfg.anchor == spec_anchor_parse(v),
        None => new_cfg.anchor == old_cfg.anchor,
    }
    &&& match spec_last_value(lines, "format"@) {
        Some(v) => new_cfg.format@ == v,
        None => new_cfg.format == old_cfg.format,
    }
    &&& match spec_last_value(lines, "border_radius"@) {
        Some(v) => new_cfg.border_radius == spec_centi_or(v, 0),
        None => new_cfg.border_radius == old_cfg.border_radius,
    }
    &&& match spec_last_value(lines, "gradient"@) {
        Some(v) => new_cfg.gradient == (lower(v) == "true"@ || v == "1"@),
        None => new_cfg.gradient == old_cfg.gradient,
    }
    &&& match spec_last_value(lines, "output"@) {
        Some(v) => spec_output_mode_ok(new_cfg.output, v),
        None => new_cfg.output == old_cfg.output,
    }
    &&& match spec_last_value(lines, "battery_mode"@) {
        Some(v) => new_cfg.battery_mode == spec_parse_battery_mode(v),
        None => new_cfg.battery_mode == old_cfg.battery_mode,
    }
    &&& new_cfg.config_path == old_cfg.config_path
}


/// The color a legacy signal field names after the collection pass: the
/// latest definition of the name, a color literal, or white.
pub open spec fn spec_legacy_line_color(lines: Seq<Seq<char>>, field: Seq<char>) -> Rgba {
    match spec_legacy_colors_get(lines, field) {
        Some(c) => c,
        None => match spec_parse_color(field) {
            Some(c) => c,
            None => Rgba { r: 1000, g: 1000, b: 1000, a: 1000 },
        },
    }
}

/// The field-wise relation between an accepted `signal=` line's value and
/// the definition built from it, with colors resolved over the lines.
pub open spec fn spec_legacy_signal_from_line(
    lines: Seq<Seq<char>>,
    value: Seq<char>,
    sig: Signal,
) -> bool {
    let parts = spec_split_trim(value, ',');
    &&& parts.len() >= 8
    &&& sig.message@ == parts[0]
    &&& sig.icon@ == parts[1]
    &&& sig.icon_size == match crate::text::spec_parse_fixed_i64(parts[2], 2) {
        Some(v) => v,
        None => DEFAULT_ICON_SIZE,
    }
    &&& sig.color == spec_legacy_line_color(lines, parts[3])
    &&& sig.threshold == match crate::text::spec_parse_fixed_i64(parts[4], 2) {
        Some(v) => v,
        None => 10000i64,
    }
    &&& sig.state_filter@ == lower(parts[5])
    &&& sig.animation == spec_parse_animation(parts[6])
    &&& sig.duration == match crate::text::spec_parse_u64(parts[7]) {
        Some(v) => v,
        None => 5u64,
    }
    &&& match sig.sound {
        Some(s) => parts.len() >= 9 && parts[8].len() > 0 && s@ == parts[8],
        None => parts.len() < 9 || parts[8].len() == 0,
    }
}

/// The legacy configuration keys are pairwise distinct.
proof fn lemma_legacy_keys_distinct()
    ensures
        "font"@ != "font_size"@,
        "font"@ != "font_slant"@,
        "font"@ != "font_weight"@,
        "font"@ != "position"@,
        "font"@ != "format"@,
        "font"@ != "border_radius"@,
        "font"@ != "gradient"@,
        "font"@ != "output"@,
        "font"@ != "battery_mode"@,
        "font"@ != "signal"@,
        "font_size"@ != "font_slant"@,
        "font_size"@ != "font_weight"@,
        "font_size"@ != "position"@,
        "font_size"@ != "format"@,
        "font_size"@ != "border_radius"@,
        "font_size"@ != "gradient"@,
        "font_size"@ != "output"@,
        "font_size"@ != "battery_mode"@,
        "font_size"@ != "signal"@,
        "font_slant"@ != "font_weight"@,
        "font_slant"@ != "position"@,
        "font_slant"@ != "format"@,
        "font_slant"@ != "border_radius"@,
        "font_slant"@ != "gradient"@,
        "font_slant"@ != "output"@,
        "font_slant"@ != "battery_mode"@,
        "font_slant"@ != "signal"@,
        "font_weight"@ != "position"@,
        "font_weight"@ != "format"@,
        "font_weight"@ != "border_radius"@,
        "font_weight"@ != "gradient"@,
        "font_weight"@ != "output"@,
        "font_weight"@ != "battery_mode"@,
        "font_weight"@ != "signal"@,
        "position"@ != "format"@,
        "position"@ != "border_radius"@,
        "position"@ != "gradient"@,
        "position"@ != "output"@,
        "position"@ != "battery_mode"@,
        "position"@ != "signal"@,
        "format"@ != "border_radius"@,
        "format"@ != "gradient"@,
        "format"@ != "output"@,
        "format"@ != "battery_mode"@,
        "format"@ != "signal"@,
        "border_radius"@ != "gradient"@,
        "border_radius"@ != "output"@,
        "border_radius"@ != "battery_mode"@,
        "border_radius"@ != "signal"@,
        "gradient"@ != "output"@,
        "gradient"@ != "battery_mode"@,
        "gradient"@ != "signal"@,
        "output"@ != "battery_mode"@,
        "output"@ != "signal"@,
        "battery_mode"@ != "signal"@,
{
    reveal_strlit("font");
    reveal_strlit("font_size");
    reveal_strlit("font_slant");
    reveal_strlit("font_weight");
    reveal_strlit("position");
    reveal_strlit("format");
    reveal_strlit("border_radius");
    reveal_strlit("gradient");
    reveal_strlit("output");
    reveal_strlit("battery_mode");
    reveal_strlit("signal");
    assert("font"@.len() == 4);
    assert("font_size"@.len() == 9);
    assert("font_slant"@.len() == 10);
    assert("font_weight"@.len() == 11);
    assert("position"@.len() == 8);
    assert("format"@.len() == 6);
    assert("border_radius"@.len() == 13);
    assert("gradient"@.len() == 8);
    assert("output"@.len() == 6);
    assert("battery_mode"@.len() == 12);
    assert("signal"@.len() == 6);
    assert("position"@[0] == 'p');
    assert("gradient"@[0] == 'g');
    assert("format"@[0] == 'f');
    assert("output"@[0] == 'o');
    assert("signal"@[0] == 's');
}

impl AppConfig {
    /// Load settings from a legacy line-oriented configuration text: a
    /// first pass collects named colors, a second applies every `key =
    /// value` line in order, the latest assignment of each key winning,
    /// and each accepted `signal=` line appending a definition.
    #[verifier::rlimit(100)]
    pub fn load_legacy(&mut self, content: &str)
        ensures
            ({
                let lines = spec_split_trim(content@, '\n');
                let svals = spec_legacy_signal_values(lines);
                &&& spec_legacy_scalars_ok(*old(self), *final(self), lines)
                &&& match spec_legacy_colors_get(lines, "text_color"@) {
                    Some(c) => final(self).text_color == c,
                    None => final(self).text_color == old(self).text_color,
                }
                &&& match spec_legacy_colors_get(lines, "bg_color"@) {
                    Some(c) => final(self).bg_color == c,
                    None => final(self).bg_color == old(self).bg_color,
                }
                &&& final(self).signals@.len() == old(self).signals@.len() + svals.len()
                &&& forall|j: int|
                    0 <= j < old(self).signals@.len() ==> final(self).signals@[j] == old(
                        self,
                    ).signals@[j]
                &&& forall|j: int|
                    0 <= j < svals.len() ==> spec_legacy_signal_from_line(
                        lines,
                        #[trigger] svals[j],
                        final(self).signals@[old(self).signals@.len() + j],
                    )
            }),
    {
        let lines = split_trim(content, '\n');
        let ghost ls = spec_split_trim(content@, '\n');
        proof {
            assert(lines.deep_view().len() == lines@.len());
            assert(forall|j: int|
                0 <= j < lines@.len() ==> lines.deep_view()[j] == #[trigger] lines@[j]@);
            assert(ls.take(0) =~= Seq::<Seq<char>>::empty());
        }
        // first pass: collect named colors, the latest definition winning
        let mut colors: Vec<(String, Rgba)> = Vec::new();
        let mut i: usize = 0;
        while i < lines.len()
            invariant
                0 <= i <= lines@.len(),
                lines.deep_view() == ls,
                forall|j: int|
                    0 <= j < lines@.len() ==> lines.deep_view()[j] == #[trigger] lines@[j]@,
                forall|q: Seq<char>|
                    #[trigger] spec_color_get(colors@, q) == spec_legacy_colors_get(
                        ls.take(i as int),
                        q,
                    ),
            decreases lines@.len() - i,
        {
            let ghost pre = colors@;
            proof {
                assert(ls.take(i + 1 as int).drop_last() =~= ls.take(i as int));
                assert(ls.take(i + 1 as int).last() == ls[i as int]);
            }
            match line_kv(lines[i].as_str()) {
                Some(kv) => {
                    let vn = kv.1.as_str().unicode_len();
                    let wrapped = vn > 0 && kv.1.as_str().get_char(0) == '(' && kv.1.as_str()
                        .get_char(vn - 1) == ')';
                    proof {
                        if vn > 0 {
                            assert(kv.1@.last() == kv.1@[vn - 1 as int]);
                        }
                    }
                    if wrapped {
                        match Self::parse_color(kv.1.as_str()) {
                            Some(c) => {
                                let ghost key = kv.0@;
                                colors.insert(0, (kv.0, c));
                                proof {
                                    assert(colors@.drop_first() =~= pre);
                                    assert(colors@[0].0@ == key && colors@[0].1 == c);
                                    assert(spec_legacy_color_def(ls[i as int]) == Some((key, c)));
                                    assert forall|q: Seq<char>| #[trigger] spec_color_get(
                                        colors@,
                                        q,
                                    ) == spec_legacy_colors_get(ls.take(i + 1 as int), q) by {
                                        if q == key {
                                            assert(spec_color_get(colors@, q) == Some(c));
                                        } else {
                                            assert(spec_color_get(colors@, q) == spec_color_get(
                                                pre,
                                                q,
                                            ));
                                        }
                                    }
                                }
                            },
                            None => {
                                proof {
                                    assert(spec_legacy_color_def(ls[i as int]) is None);
                                }
                            },
                        }
                    } else {
                        proof {
                            assert(spec_legacy_color_def(ls[i as int]) is None);
                        }
                    }
                },
                None => {
                    proof {
                        assert(spec_legacy_color_def(ls[i as int]) is None);
                    }
                },
            }
            i = i + 1;
        }
        proof {
            assert(ls.take(lines@.len() as int) =~= ls);
        }
        match color_get(&colors, "text_color") {
            Some(c) => {
                self.text_color = c;
            },
            None => {},
        }
        match color_get(&colors, "bg_color") {
            Some(c) => {
                self.bg_color = c;
            },
            None => {},
        }
        // second pass: apply every setting in order
        let ghost base = self.signals@.len();
        let ghost entry = *self;
        let mut i2: usize = 0;
        proof {
            assert(spec_legacy_signal_values(ls.take(0)) =~= Seq::<Seq<char>>::empty());
        }
        while i2 < lines.len()
            invariant
                0 <= i2 <= lines@.len(),
                lines.deep_view() == ls,
                forall|j: int|
                    0 <= j < lines@.len() ==> lines.deep_view()[j] == #[trigger] lines@[j]@,
                forall|q: Seq<char>|
                    #[trigger] spec_color_get(colors@, q) == spec_legacy_colors_get(ls, q),
                spec_legacy_scalars_ok(entry, *self, ls.take(i2 as int)),
                self.text_color == entry.text_color,
                self.bg_color == entry.bg_color,
                base == entry.signals@.len(),
                self.signals@.len() == base + spec_legacy_signal_values(ls.take(i2 as int)).len(),
                forall|j: int| 0 <= j < base ==> self.signals@[j] == entry.signals@[j],
                forall|j: int|
                    0 <= j < spec_legacy_signal_values(ls.take(i2 as int)).len()
                        ==> spec_legacy_signal_from_line(
                        ls,
                        #[trigger] spec_legacy_signal_values(ls.take(i2 as int))[j],
                        self.signals@[base + j],
                    ),
            decreases lines@.len() - i2,
        {
            proof {
                assert(ls.take(i2 + 1 as int).drop_last() =~= ls.take(i2 as int));
                assert(ls.take(i2 + 1 as int).last() == ls[i2 as int]);
                lemma_legacy_keys_distinct();
            }
            let ghost svals_pre = spec_legacy_signal_values(ls.take(i2 as int));
            match line_kv(lines[i2].as_str()) {
                Some(kv) => {
                    let k = kv.0.as_str();
                    if str_eq(k, "font") {
                        self.font = kv.1;
                    } else if str_eq(k, "font_size") {
                        self.font_size = match crate::text::parse_centi(kv.1.as_str()) {
                            Some(v) => v,
                            None => DEFAULT_FONT_SIZE,
                        };
                    } else if str_eq(k, "font_slant") {
                        self.font_slant = parse_font_slant(kv.1.as_str());
                    } else if str_eq(k, "font_weight") {
                        self.font_weight = parse_font_weight(kv.1.as_str());
                    } else if str_eq(k, "position") {
                        self.anchor = Anchor::parse(kv.1.as_str());
                    } else if str_eq(k, "format") {
                        self.format = kv.1;
                    } else if str_eq(k, "border_radius") {
                        self.border_radius = match crate::text::parse_centi(kv.1.as_str()) {
                            Some(v) => v,
                            None => 0,
                        };
                    } else if str_eq(k, "gradient") {
                        proof {
                            reveal_strlit("true");
                            assert(lower("true"@) =~= "true"@);
                        }
                        self.gradient = crate::text::eq_ignore_case(kv.1.as_str(), "true")
                            || str_eq(kv.1.as_str(), "1");
                    } else if str_eq(k, "output") {
                        self.output = parse_output_mode(kv.1.as_str());
                    } else if str_eq(k, "battery_mode") {
                        self.battery_mode = parse_battery_mode(kv.1.as_str());
                    } else if str_eq(k, "signal") {
                        let ghost sigs_pre = self.signals@;
                        match self.parse_legacy_signal(kv.1.as_str(), &colors) {
                            Some(s) => {
                                self.signals.push(s);
                                proof {
                                    assert(spec_legacy_signal_values(ls.take(i2 + 1 as int))
                                        =~= svals_pre.push(kv.1@));
                                    assert(self.signals@.drop_last() =~= sigs_pre);
                                }
                            },
                            None => {},
                        }
                    }
                },
                None => {},
            }
            i2 = i2 + 1;
        }
        proof {
            assert(ls.take(lines@.len() as int) =~= ls);
        }
    }

}

/// Whether a state label names the charging direction.
pub open spec fn spec_is_charging(state: Seq<char>) -> bool {
    lower(state) == "charging"@
}

/// Whether one signal definition matches a percentage/state pair: the state
/// filter is `any` or equals the state (ASCII case-insensitively), and the
/// threshold test holds in the direction the state dictates — at or above
/// the threshold while charging, at or below it otherwise.
pub open spec fn spec_signal_matches(s: Signal, pct: int, state: Seq<char>) -> bool {
    let state_ok = lower(s.state_filter@) == "any"@ || lower(s.state_filter@) == lower(state);
    let thr_ok = if spec_is_charging(state) {
        pct >= s.threshold
    } else {
        pct <= s.threshold
    };
    state_ok && thr_ok
}

/// Whether threshold `a` beats threshold `b` for the given direction:
/// larger wins while charging, smaller wins otherwise.
pub open spec fn spec_threshold_better(charging: bool, a: int, b: int) -> bool {
    if charging {
        a > b
    } else {
        a < b
    }
}

/// The index of the selected signal definition: the best-matching one, with
/// the earliest-defined winning among equal thresholds.
pub open spec fn spec_find_signal(signals: Seq<Signal>, pct: int, state: Seq<char>) -> Option<
    int,
>
    decreases signals.len(),
{
    if signals.len() == 0 {
        None
    } else {
        let prev = spec_find_signal(signals.drop_last(), pct, state);
        let i = signals.len() - 1;
        if spec_signal_matches(signals[i], pct, state) {
            match prev {
                None => Some(i),
                Some(j) => if spec_threshold_better(
                    spec_is_charging(state),
                    signals[i].threshold as int,
                    signals[j].threshold as int,
                ) {
                    Some(i)
                } else {
                    Some(j)
                },
            }
        } else {
            prev
        }
    }
}

/// The selected definition matches, nothing is selected exactly when
/// nothing matches, no matching definition strictly beats the selected one,
/// and the selected one strictly beats every earlier matching definition —
/// so the earliest-defined wins among equal thresholds.
pub proof fn lemma_find_signal_characterization(signals: Seq<Signal>, pct: int, state: Seq<char>)
    ensures
        match spec_find_signal(signals, pct, state) {
            None => forall|j: int|
                0 <= j < signals.len() ==> !spec_signal_matches(#[trigger] signals[j], pct, state),
            Some(i) => {
                &&& 0 <= i < signals.len()
                &&& spec_signal_matches(signals[i], pct, state)
                &&& forall|j: int|
                    0 <= j < signals.len() && spec_signal_matches(
                        #[trigger] signals[j],
                        pct,
                        state,
                    ) ==> !spec_threshold_better(
                        spec_is_charging(state),
                        signals[j].threshold as int,
                        signals[i].threshold as int,
                    )
                &&& forall|j: int|
                    0 <= j < i && spec_signal_matches(#[trigger] signals[j], pct, state)
                        ==> spec_threshold_better(
                        spec_is_charging(state),
                        signals[i].threshold as int,
                        signals[j].threshold as int,
                    )
            },
        },
    decreases signals.len(),
{
    if signals.len() > 0 {
        lemma_find_signal_characterization(signals.drop_last(), pct, state);
        assert(forall|j: int|
            0 <= j < signals.len() - 1 ==> #[trigger] signals[j] == signals.drop_last()[j]);
    }
}

impl AppConfig {
    /// Resolve the single best-matching signal definition for a
    /// percentage/state pair: among the definitions whose state filter and
    /// threshold test match, the one with the largest threshold while
    /// charging and the smallest otherwise, the earliest-defined winning
    /// ties.
    ///
    /// `pct` is in hundredths of a percent.
    pub fn find_signal(&self, pct: i64, state: &str) -> (r: Option<&Signal>)
        ensures
            match r {
                Some(sig) => spec_find_signal(self.signals@, pct as int, state@) matches Some(i)
                    && *sig == self.signals@[i],
                None => spec_find_signal(self.signals@, pct as int, state@) is None,
            },
    {
        match self.find_signal_index(pct, state) {
            Some(k) => Some(&self.signals[k]),
            None => None,
        }
    }

    /// As `find_signal`, but returning the index of the selected
    /// definition.
    pub fn find_signal_index(&self, pct: i64, state: &str) -> (r: Option<usize>)
        ensures
            match r {
                Some(k) => k < self.signals@.len() && spec_find_signal(
                    self.signals@,
                    pct as int,
                    state@,
                ) == Some(k as int),
                None => spec_find_signal(self.signals@, pct as int, state@) is None,
            },
    {
        proof {
            reveal_strlit("charging");
            reveal_strlit("any");
            assert(lower("charging"@) =~= "charging"@);
            assert(lower("any"@) =~= "any"@);
        }
        let charging = crate::text::eq_ignore_case(state, "charging");
        let n = self.signals.len();
        let mut best: Option<usize> = None;
        let mut i: usize = 0;
        while i < n
            invariant
                0 <= i <= n,
                n == self.signals@.len(),
                charging == spec_is_charging(state@),
                lower("charging"@) == "charging"@,
                lower("any"@) == "any"@,
                match best {
                    Some(b) => b < i && spec_find_signal(
                        self.signals@.take(i as int),
                        pct as int,
                        state@,
                    ) == Some(b as int),
                    None => spec_find_signal(self.signals@.take(i as int), pct as int, state@)
                        is None,
                },
            decreases n - i,
        {
            let sig = &self.signals[i];
            let state_ok = crate::text::eq_ignore_case(sig.state_filter.as_str(), "any")
                || crate::text::eq_ignore_case(sig.state_filter.as_str(), state);
            let thr_ok = if charging {
                pct >= sig.threshold
            } else {
                pct <= sig.threshold
            };
            proof {
                assert(self.signals@.take(i + 1 as int).drop_last() =~= self.signals@.take(
                    i as int,
                ));
                assert(self.signals@.take(i + 1 as int).last() == self.signals@[i as int]);
            }
            if state_ok && thr_ok {
                match best {
                    None => {
                        best = Some(i);
                    },
                    Some(b) => {
                        let better = if charging {
                            self.signals[i].threshold > self.signals[b].threshold
                        } else {
                            self.signals[i].threshold < self.signals[b].threshold
                        };
                        if better {
                            best = Some(i);
                        }
                    },
                }
            }
            i = i + 1;
        }
        proof {
            assert(self.signals@.take(n as int) =~= self.signals@);
        }
        best
    }
}

/// For two matching definitions with thresholds `t1 < t2`, the resolver
/// picks one whose threshold is at least `t2` while charging, and at most
/// `t1` otherwise: the larger threshold wins in the charging direction, the
/// smaller in the discharging one.
pub proof fn lemma_find_signal_priority(
    signals: Seq<Signal>,
    pct: int,
    state: Seq<char>,
    i: int,
    j: int,
)
    requires
        0 <= i < signals.len(),
        0 <= j < signals.len(),
        spec_signal_matches(signals[i], pct, state),
        spec_signal_matches(signals[j], pct, state),
        signals[i].threshold < signals[j].threshold,
    ensures
        spec_find_signal(signals, pct, state) matches Some(k) && {
            &&& 0 <= k < signals.len()
            &&& spec_signal_matches(signals[k], pct, state)
            &&& spec_is_charging(state) ==> signals[k].threshold >= signals[j].threshold
            &&& !spec_is_charging(state) ==> signals[k].threshold <= signals[i].threshold
        },
{
    lemma_find_signal_characterization(signals, pct, state);
}

/// The general settings of a parsed configuration document, each optional.
pub struct GeneralDoc {
    pub font: Option<String>,
    /// Hundredths of a point.
    pub font_size: Option<i64>,
    pub font_slant: Option<String>,
    pub font_weight: Option<String>,
    pub position: Option<String>,
    pub format: Option<String>,
    pub output: Option<String>,
    pub battery_mode: Option<String>,
}

/// The appearance settings of a parsed configuration document.
pub struct AppearanceDoc {
    pub text_color: Option<Rgba>,
    pub bg_color: Option<Rgba>,
    /// Hundredths of a pixel.
    pub border_radius: Option<i64>,
    pub gradient: Option<bool>,
}

/// One signal entry of a parsed configuration document, fields as the
/// document spells them.
pub struct SignalDoc {
    pub message: String,
    pub icon: String,
    /// Hundredths of a point.
    pub icon_size: Option<i64>,
    /// The name of a color in the document's color table.
    pub color: String,
    /// Hundredths of a percent.
    pub threshold: i64,
    pub state: String,
    pub animation: String,
    pub duration: Option<u64>,
    pub sound: Option<String>,
}

/// A structured configuration document, as the document parser hands it
/// over in plain values.
pub struct ConfigDocument {
    pub general: Option<GeneralDoc>,
    pub appearance: Option<AppearanceDoc>,
    /// Named colors, earlier entries shadowing later ones.
    pub colors: Vec<(String, Rgba)>,
    pub signal: Vec<SignalDoc>,
}

/// The field-wise relation between a document's signal entry and the
/// definition built from it.
pub open spec fn spec_signal_from_doc(d: SignalDoc, colors: Seq<(String, Rgba)>, sig: Signal) -> bool {
    &&& sig.message@ == d.message@
    &&& sig.icon@ == d.icon@
    &&& sig.icon_size == match d.icon_size {
        Some(v) => v,
        None => DEFAULT_ICON_SIZE,
    }
    &&& sig.color == match spec_color_get(colors, d.color@) {
        Some(c) => c,
        None => Rgba { r: 1000, g: 1000, b: 1000, a: 1000 },
    }
    &&& sig.threshold == d.threshold
    &&& sig.state_filter@ == lower(d.state@)
    &&& sig.animation == spec_parse_animation(d.animation@)
    &&& sig.duration == match d.duration {
        Some(v) => v,
        None => 5u64,
    }
    &&& match (sig.sound, d.sound) {
        (Option::Some(s), Option::Some(ds)) => s@ == ds@,
        (Option::None, Option::None) => true,
        _ => false,
    }
}


impl AppConfig {
    /// Apply the general section of a document: every present setting
    /// replaces the current one.
    fn apply_general(&mut self, g: &GeneralDoc)
        ensures
            (match g.font {
                Some(f) => final(self).font@ == f@,
                None => final(self).font == old(self).font,
            }),
            (match g.font_size {
                Some(v) => final(self).font_size == v,
                None => final(self).font_size == old(self).font_size,
            }),
            (match g.font_slant {
                Some(v) => final(self).font_slant == spec_parse_font_slant(v@),
                None => final(self).font_slant == old(self).font_slant,
            }),
            (match g.font_weight {
                Some(v) => final(self).font_weight == spec_parse_font_weight(v@),
                None => final(self).font_weight == old(self).font_weight,
            }),
            (match g.position {
                Some(v) => final(self).anchor == spec_anchor_parse(v@),
                None => final(self).anchor == old(self).anchor,
            }),
            (match g.format {
                Some(v) => final(self).format@ == v@,
                None => final(self).format == old(self).format,
            }),
            (match g.output {
                Some(v) => spec_output_mode_ok(final(self).output, v@),
                None => final(self).output == old(self).output,
            }),
            (match g.battery_mode {
                Some(v) => final(self).battery_mode == spec_parse_battery_mode(v@),
                None => final(self).battery_mode == old(self).battery_mode,
            }),
            final(self).text_color == old(self).text_color,
            final(self).bg_color == old(self).bg_color,
            final(self).border_radius == old(self).border_radius,
            final(self).gradient == old(self).gradient,
            final(self).signals == old(self).signals,
            final(self).config_path == old(self).config_path,
    {
        if let Some(f) = &g.font {
            self.font = f.clone();
        }
        if let Some(v) = g.font_size {
            self.font_size = v;
        }
        if let Some(v) = &g.font_slant {
            self.font_slant = parse_font_slant(v.as_str());
        }
        if let Some(v) = &g.font_weight {
            self.font_weight = parse_font_weight(v.as_str());
        }
        if let Some(v) = &g.position {
            self.anchor = Anchor::parse(v.as_str());
        }
        if let Some(v) = &g.format {
            self.format = v.clone();
        }
        if let Some(v) = &g.output {
            self.output = parse_output_mode(v.as_str());
        }
        if let Some(v) = &g.battery_mode {
            self.battery_mode = parse_battery_mode(v.as_str());
        }
    }

    /// Apply the appearance section of a document.
    fn apply_appearance(&mut self, a: &AppearanceDoc)
        ensures
            (match a.text_color {
                Some(c) => final(self).text_color == c,
                None => final(self).text_color == old(self).text_color,
            }),
            (match a.bg_color {
                Some(c) => final(self).bg_color == c,
                None => final(self).bg_color == old(self).bg_color,
            }),
            (match a.border_radius {
                Some(v) => final(self).border_radius == v,
                None => final(self).border_radius == old(self).border_radius,
            }),
            (match a.gradient {
                Some(v) => final(self).gradient == v,
                None => final(self).gradient == old(self).gradient,
            }),
            final(self).font == old(self).font,
            final(self).font_size == old(self).font_size,
            final(self).font_slant == old(self).font_slant,
            final(self).font_weight == old(self).font_weight,
            final(self).anchor == old(self).anchor,
            final(self).format == old(self).format,
            final(self).output == old(self).output,
            final(self).battery_mode == old(self).battery_mode,
            final(self).signals == old(self).signals,
            final(self).config_path == old(self).config_path,
    {
        if let Some(c) = a.text_color {
            self.text_color = c;
        }
        if let Some(c) = a.bg_color {
            self.bg_color = c;
        }
        if let Some(v) = a.border_radius {
            self.border_radius = v;
        }
        if let Some(v) = a.gradient {
            self.gradient = v;
        }
    }
}

impl AppConfig {
    /// Apply a structured configuration document: every present setting
    /// replaces the current one, and each signal entry appends a
    /// definition with its color resolved against the document's color
    /// table (white when the name is unknown).
    #[verifier::rlimit(100)]
    pub fn apply_config_file(&mut self, doc: &ConfigDocument)
        ensures
            (match doc.general {
                Some(g) => {
                    &&& (match g.font {
                        Some(f) => final(self).font@ == f@,
                        None => final(self).font == old(self).font,
                    })
                    &&& (match g.font_size {
                        Some(v) => final(self).font_size == v,
                        None => final(self).font_size == old(self).font_size,
                    })
                    &&& (match g.font_slant {
                        Some(v) => final(self).font_slant == spec_parse_font_slant(v@),
                        None => final(self).font_slant == old(self).font_slant,
                    })
                    &&& (match g.font_weight {
                        Some(v) => final(self).font_weight == spec_parse_font_weight(v@),
                        None => final(self).font_weight == old(self).font_weight,
                    })
                    &&& (match g.position {
                        Some(v) => final(self).anchor == spec_anchor_parse(v@),
                        None => final(self).anchor == old(self).anchor,
                    })
                    &&& (match g.format {
                        Some(v) => final(self).format@ == v@,
                        None => final(self).format == old(self).format,
                    })
                    &&& (match g.output {
                        Some(v) => spec_output_mode_ok(final(self).output, v@),
                        None => final(self).output == old(self).output,
                    })
                    &&& (match g.battery_mode {
                        Some(v) => final(self).battery_mode == spec_parse_battery_mode(v@),
                        None => final(self).battery_mode == old(self).battery_mode,
                    })
                },
                None => {
                    &&& final(self).font == old(self).font
                    &&& final(self).font_size == old(self).font_size
                    &&& final(self).font_slant == old(self).font_slant
                    &&& final(self).font_weight == old(self).font_weight
                    &&& final(self).anchor == old(self).anchor
                    &&& final(self).format == old(self).format
                    &&& final(self).output == old(self).output
                    &&& final(self).battery_mode == old(self).battery_mode
                },
            }),
            (match doc.appearance {
                Some(a) => {
                    &&& (match a.text_color {
                        Some(c) => final(self).text_color == c,
                        None => final(self).text_color == old(self).text_color,
                    })
                    &&& (match a.bg_color {
                        Some(c) => final(self).bg_color == c,
                        None => final(self).bg_color == old(self).bg_color,
                    })
                    &&& (match a.border_radius {
                        Some(v) => final(self).border_radius == v,
                        None => final(self).border_radius == old(self).border_radius,
                    })
                    &&& (match a.gradient {
                        Some(v) => final(self).gradient == v,
                        None => final(self).gradient == old(self).gradient,
                    })
                },
                None => {
                    &&& final(self).text_color == old(self).text_color
                    &&& final(self).bg_color == old(self).bg_color
                    &&& final(self).border_radius == old(self).border_radius
                    &&& final(self).gradient == old(self).gradient
                },
            }),
            final(self).config_path == old(self).config_path,
            final(self).signals@.len() == old(self).signals@.len() + doc.signal@.len(),
            forall|j: int|
                0 <= j < old(self).signals@.len() ==> final(self).signals@[j] == old(
                    self,
                ).signals@[j],
            forall|j: int|
                0 <= j < doc.signal@.len() ==> spec_signal_from_doc(
                    #[trigger] doc.signal@[j],
                    doc.colors@,
                    final(self).signals@[old(self).signals@.len() + j],
                ),
    {
        match &doc.general {
            Some(g) => {
                self.apply_general(g);
            },
            None => {},
        }
        match &doc.appearance {
            Some(a) => {
                self.apply_appearance(a);
            },
            None => {},
        }
        let ghost base = self.signals@.len();
        let ghost mid = *self;
        let mut j: usize = 0;
        while j < doc.signal.len()
            invariant
                0 <= j <= doc.signal@.len(),
                base == mid.signals@.len(),
                self.signals@.len() == base + j,
                forall|t: int| 0 <= t < base ==> self.signals@[t] == mid.signals@[t],
                forall|t: int|
                    0 <= t < j ==> spec_signal_from_doc(
                        #[trigger] doc.signal@[t],
                        doc.colors@,
                        self.signals@[base + t],
                    ),
                self.font == mid.font,
                self.font_size == mid.font_size,
                self.font_slant == mid.font_slant,
                self.font_weight == mid.font_weight,
                self.anchor == mid.anchor,
                self.text_color == mid.text_color,
                self.bg_color == mid.bg_color,
                self.border_radius == mid.border_radius,
                self.gradient == mid.gradient,
                self.format == mid.format,
                self.output == mid.output,
                self.battery_mode == mid.battery_mode,
                self.config_path == mid.config_path,
            decreases doc.signal@.len() - j,
        {
            let d = &doc.signal[j];
            let color = match color_get(&doc.colors, d.color.as_str()) {
                Some(c) => c,
                None => Rgba { r: 1000, g: 1000, b: 1000, a: 1000 },
            };
            let icon_size = match d.icon_size {
                Some(v) => v,
                None => DEFAULT_ICON_SIZE,
            };
            let duration = match d.duration {
                Some(v) => v,
                None => 5,
            };
            let sound: Option<String> = match &d.sound {
                Some(s) => Some(s.clone()),
                None => None,
            };
            let sig = Signal {
                message: d.message.clone(),
                icon: d.icon.clone(),
                icon_size,
                color,
                threshold: d.threshold,
                state_filter: to_lower(d.state.as_str()),
                animation: parse_animation(d.animation.as_str()),
                duration,
                sound,
            };
            self.signals.push(sig);
            j = j + 1;
        }
    }
}

} // verus!
