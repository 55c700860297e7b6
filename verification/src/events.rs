//! Configurable bus event definitions: match rules, trigger conditions and
//! message templates.

use vstd::prelude::*;
use crate::text::{replace, spec_replace, starts_with, str_eq};

verus! {

/// A bus match rule: every populated field must equal (or, for
/// `path_prefix`, prefix) the corresponding message attribute.
#[derive(Clone, Debug)]
pub struct MatchRule {
    pub interface: Option<String>,
    pub member: Option<String>,
    pub path: Option<String>,
    pub path_prefix: Option<String>,
    pub arg0: Option<String>,
    pub sender: Option<String>,
}

impl Default for MatchRule {
    /// The empty rule, which matches everything.
    fn default() -> (r: Self)
        ensures
            r.interface is None,
            r.member is None,
            r.path is None,
            r.path_prefix is None,
            r.arg0 is None,
            r.sender is None,
    {
        MatchRule {
            interface: None,
            member: None,
            path: None,
            path_prefix: None,
            arg0: None,
            sender: None,
        }
    }
}

/// One `key='value'` fragment of a bus match string, with its leading
/// comma, or nothing when the field is unset.
pub open spec fn spec_match_part(prefix: Seq<char>, v: Option<String>) -> Seq<char> {
    match v {
        Some(s) => prefix + s@ + "'"@,
        None => Seq::<char>::empty(),
    }
}

/// The full bus match string of a rule.
pub open spec fn spec_match_string(r: MatchRule) -> Seq<char> {
    "type='signal'"@ + spec_match_part(",interface='"@, r.interface) + spec_match_part(
        ",member='"@,
        r.member,
    ) + spec_match_part(",path='"@, r.path) + spec_match_part(",path_namespace='"@, r.path_prefix)
        + spec_match_part(",arg0='"@, r.arg0) + spec_match_part(",sender='"@, r.sender)
}

/// Whether a message with the given attributes satisfies the rule: each
/// populated field must equal its attribute, and `path_prefix` must prefix
/// the path.
pub open spec fn spec_rule_matches(
    r: MatchRule,
    interface: Seq<char>,
    member: Seq<char>,
    path: Seq<char>,
) -> bool {
    &&& match r.interface {
        Some(i) => i@ == interface,
        None => true,
    }
    &&& match r.member {
        Some(m) => m@ == member,
        None => true,
    }
    &&& match r.path {
        Some(p) => p@ == path,
        None => true,
    }
    &&& match r.path_prefix {
        Some(p) => p@.is_prefix_of(path),
        None => true,
    }
}

/// Append one optional `key='value'` fragment to a match string.
fn append_match_part(out: &mut String, prefix: &str, v: &Option<String>)
    ensures
        final(out)@ == old(out)@ + spec_match_part(prefix@, *v),
{
    let ghost orig = out@;
    match v {
        Some(s) => {
            out.append(prefix);
            out.append(s.as_str());
            out.append("'");
            proof {
                assert(out@ =~= orig + spec_match_part(prefix@, *v));
            }
        },
        None => {
            proof {
                assert(out@ =~= orig + spec_match_part(prefix@, *v));
            }
        },
    }
}

impl MatchRule {
    /// Render the rule as a bus match registration string.
    pub fn to_match_string(&self) -> (r: String)
        ensures
            r@ == spec_match_string(*self),
    {
        let mut out = String::from_str("type='signal'");
        append_match_part(&mut out, ",interface='", &self.interface);
        append_match_part(&mut out, ",member='", &self.member);
        append_match_part(&mut out, ",path='", &self.path);
        append_match_part(&mut out, ",path_namespace='", &self.path_prefix);
        append_match_part(&mut out, ",arg0='", &self.arg0);
        append_match_part(&mut out, ",sender='", &self.sender);
        out
    }

    /// Test the rule against a message's interface, member and path.
    pub fn matches(&self, interface: &str, member: &str, path: &str) -> (r: bool)
        ensures
            r == spec_rule_matches(*self, interface@, member@, path@),
    {
        if let Some(i) = &self.interface {
            if !str_eq(i.as_str(), interface) {
                return false;
            }
        }
        if let Some(m) = &self.member {
            if !str_eq(m.as_str(), member) {
                return false;
            }
        }
        if let Some(p) = &self.path {
            if !str_eq(p.as_str(), path) {
                return false;
            }
        }
        if let Some(p) = &self.path_prefix {
            if !starts_with(path, p.as_str()) {
                return false;
            }
        }
        true
    }
}

/// The message template of an event.
#[derive(Clone, Debug)]
pub struct FormatConfig {
    pub message: String,
    pub signal: Option<String>,
}

impl Default for FormatConfig {
    fn default() -> (r: Self)
        ensures
            r.message@ == Seq::<char>::empty(),
            r.signal is None,
    {
        FormatConfig { message: String::new(), signal: None }
    }
}

/// When an event fires: which changed properties trigger it, how they
/// combine, and the debounce window.
#[derive(Clone, Debug)]
pub struct ConditionsConfig {
    pub trigger_on: Vec<String>,
    pub debounce_ms: u64,
    /// All listed properties must change when true, any one otherwise.
    pub require_all: bool,
}

impl Default for ConditionsConfig {
    fn default() -> (r: Self)
        ensures
            r.trigger_on@.len() == 0,
            r.debounce_ms == 0,
            r.require_all == false,
    {
        ConditionsConfig { trigger_on: Vec::new(), debounce_ms: 0, require_all: false }
    }
}

/// An event definition: where it listens, what it matches, what it
/// extracts and how it formats the message.
#[derive(Clone, Debug)]
pub struct EventConfig {
    pub name: String,
    pub enabled: bool,
    /// `system` or `session`.
    pub bus: String,
    pub match_rule: MatchRule,
    /// Pairs of (observation field, changed-property key).
    pub extract: Vec<(String, String)>,
    /// Pairs of (raw value, state label).
    pub state_map: Vec<(String, String)>,
    pub format: FormatConfig,
    pub conditions: ConditionsConfig,
}

/// Default for an event's `enabled` flag.
pub fn default_enabled() -> (r: bool)
    ensures
        r == true,
{
    true
}

/// Default bus domain of an event.
pub fn default_bus() -> (r: String)
    ensures
        r@ == "system"@,
{
    String::from_str("system")
}

/// Default debounce window, in milliseconds.
pub fn default_debounce() -> (r: u64)
    ensures
        r == 0,
{
    0
}

/// The built-in battery event used when no event definitions are found:
/// UPower property changes on any battery device, debounced to a second,
/// reporting percentage and state.
pub fn builtin_battery_event() -> (e: EventConfig)
    ensures
        e.name@ == "Battery (built-in)"@,
        e.enabled == true,
        e.bus@ == "system"@,
        e.match_rule.interface matches Some(i) && i@ == "org.freedesktop.DBus.Properties"@,
        e.match_rule.member matches Some(m) && m@ == "PropertiesChanged"@,
        e.match_rule.path_prefix matches Some(p) && p@ == "/org/freedesktop/UPower/devices"@,
        e.match_rule.arg0 matches Some(a) && a@ == "org.freedesktop.UPower.Device"@,
        e.match_rule.path is None,
        e.match_rule.sender is None,
        e.extract.deep_view() =~= seq![
            ("percentage"@, "Percentage"@),
            ("state"@, "State"@),
        ],
        e.state_map.deep_view() =~= seq![
            ("1"@, "charging"@),
            ("2"@, "discharging"@),
            ("4"@, "full"@),
        ],
        e.format.message@ == "{percentage}%"@,
        e.format.signal is None,
        e.conditions.trigger_on@.len() == 0,
        e.conditions.debounce_ms == 1000,
        e.conditions.require_all == false,
{
    let mut state_map: Vec<(String, String)> = Vec::new();
    state_map.push((String::from_str("1"), String::from_str("charging")));
    state_map.push((String::from_str("2"), String::from_str("discharging")));
    state_map.push((String::from_str("4"), String::from_str("full")));
    let mut extract: Vec<(String, String)> = Vec::new();
    extract.push((String::from_str("percentage"), String::from_str("Percentage")));
    extract.push((String::from_str("state"), String::from_str("State")));
    EventConfig {
        name: String::from_str("Battery (built-in)"),
        enabled: true,
        bus: String::from_str("system"),
        match_rule: MatchRule {
            interface: Some(String::from_str("org.freedesktop.DBus.Properties")),
            member: Some(String::from_str("PropertiesChanged")),
            path_prefix: Some(String::from_str("/org/freedesktop/UPower/devices")),
            arg0: Some(String::from_str("org.freedesktop.UPower.Device")),
            path: None,
            sender: None,
        },
        extract,
        state_map,
        format: FormatConfig { message: String::from_str("{percentage}%"), signal: None },
        conditions: ConditionsConfig { trigger_on: Vec::new(), debounce_ms: 1000, require_all: false },
    }
}

/// The template with `{key}` replaced by the value, for each pair in turn.
pub open spec fn spec_format_message(
    template: Seq<char>,
    values: Seq<(Seq<char>, Seq<char>)>,
) -> Seq<char>
    decreases values.len(),
{
    if values.len() == 0 {
        template
    } else {
        spec_format_message(
            spec_replace(template, "{"@ + values[0].0 + "}"@, values[0].1),
            values.drop_first(),
        )
    }
}

/// Substitute each `{key}` token in the template by its value.
pub fn format_message(template: &str, values: &Vec<(String, String)>) -> (r: String)
    ensures
        r@ == spec_format_message(template@, values.deep_view()),
{
    let mut result = String::from_str(template);
    let n = values.len();
    let mut i: usize = 0;
    proof {
        assert(values.deep_view().skip(0) =~= values.deep_view());
    }
    while i < n
        invariant
            0 <= i <= n,
            n == values@.len(),
            n == values.deep_view().len(),
            spec_format_message(result@, values.deep_view().skip(i as int))
                == spec_format_message(template@, values.deep_view()),
        decreases n - i,
    {
        let pat = String::from_str("{").concat(values[i].0.as_str()).concat("}");
        proof {
            assert(values.deep_view()[i as int] == (values@[i as int].0@, values@[i as int].1@));
            assert(pat@ == "{"@ + values.deep_view()[i as int].0 + "}"@);
            assert(values.deep_view().skip(i as int).drop_first() =~= values.deep_view().skip(
                i + 1 as int,
            ));
            assert(values.deep_view().skip(i as int)[0] == values.deep_view()[i as int]);
        }
        result = replace(result.as_str(), pat.as_str(), values[i].1.as_str());
        i = i + 1;
    }
    proof {
        assert(values.deep_view().skip(n as int) =~= Seq::<(Seq<char>, Seq<char>)>::empty());
    }
    result
}

} // verus!
