//! Bus message model and the event matcher: normalizing property-change
//! messages into observations, with trigger conditions and debouncing.
//!
//! Fractional bus values are carried in hundredths (`PropValue::Centi`), so
//! a percentage of 49.5 arrives as 4950.

use vstd::prelude::*;
use crate::events::{ConditionsConfig, EventConfig, spec_rule_matches, spec_format_message};
use crate::text::{
    contains, contains_seq, spec_centi_str, spec_u64_str, spec_i64_str, centi_to_string,
    u64_to_string, i64_to_string, str_eq,
};

verus! {

/// The largest percentage value, in hundredths, that the formatting
/// pipeline accepts; extraction rejects anything beyond it.
pub const PERCENT_LIMIT: i64 = i64::MAX - 50;

/// A typed changed-property value, as the transport hands it over:
/// integers as themselves, fractional numbers in hundredths, everything
/// else already rendered to text.
#[derive(Clone, Debug)]
pub enum PropValue {
    U32(u32),
    I32(i32),
    U64(u64),
    I64(i64),
    /// A fractional value in hundredths.
    Centi(i64),
    Str(String),
    Bool(bool),
}

/// Whether a property value is within the model's numeric range.
pub open spec fn spec_prop_ok(v: PropValue) -> bool {
    match v {
        PropValue::Centi(c) => -PERCENT_LIMIT <= c <= PERCENT_LIMIT,
        _ => true,
    }
}

/// What the UPower battery state label is for a given raw state number.
pub open spec fn spec_upower_state(state: u32) -> Seq<char> {
    if state == 1 {
        "charging"@
    } else if state == 2 {
        "discharging"@
    } else if state == 4 {
        "full"@
    } else {
        "unknown"@
    }
}

/// Map a UPower state number to its label.
pub fn upower_state_to_string(state: u32) -> (r: String)
    ensures
        r@ == spec_upower_state(state),
{
    match state {
        1u32 => String::from_str("charging"),
        2u32 => String::from_str("discharging"),
        4u32 => String::from_str("full"),
        _ => String::from_str("unknown"),
    }
}

/// What numeric widening yields for a property value: integers scaled to
/// hundredths, fractional values as they are, anything non-numeric or out
/// of range nothing.
pub open spec fn spec_extract_centi(v: PropValue) -> Option<i64> {
    match v {
        PropValue::Centi(c) => Some(c),
        PropValue::U32(x) => Some((100 * x) as i64),
        PropValue::I32(x) => Some((100 * x) as i64),
        PropValue::U64(x) => if 100 * x <= PERCENT_LIMIT {
            Some((100 * x) as i64)
        } else {
            None
        },
        PropValue::I64(x) => if -PERCENT_LIMIT <= 100 * x <= PERCENT_LIMIT {
            Some((100 * x) as i64)
        } else {
            None
        },
        _ => None,
    }
}

/// Widen a numeric property value to hundredths.
pub fn extract_centi(v: &PropValue) -> (r: Option<i64>)
    ensures
        r == spec_extract_centi(*v),
{
    match v {
        PropValue::Centi(c) => Some(*c),
        PropValue::U32(x) => Some(100 * (*x as i64)),
        PropValue::I32(x) => Some(100 * (*x as i64)),
        PropValue::U64(x) => {
            if *x <= (PERCENT_LIMIT / 100) as u64 {
                Some(100 * (*x as i64))
            } else {
                None
            }
        },
        PropValue::I64(x) => {
            if -(PERCENT_LIMIT / 100) <= *x && *x <= PERCENT_LIMIT / 100 {
                Some(100 * *x)
            } else {
                None
            }
        },
        _ => None,
    }
}

/// What unsigned narrowing yields: `u32` as is, `i32` reinterpreted in
/// two's complement, anything else nothing.
pub open spec fn spec_extract_u32(v: PropValue) -> Option<u32> {
    match v {
        PropValue::U32(x) => Some(x),
        PropValue::I32(x) => if x >= 0 {
            Some(x as u32)
        } else {
            Some((x + 0x1_0000_0000) as u32)
        },
        _ => None,
    }
}

/// Narrow a property value to a `u32`.
pub fn extract_u32(v: &PropValue) -> (r: Option<u32>)
    ensures
        r == spec_extract_u32(*v),
{
    match v {
        PropValue::U32(x) => Some(*x),
        PropValue::I32(x) => {
            if *x >= 0 {
                Some(*x as u32)
            } else {
                Some(((*x as i64) + 0x1_0000_0000) as u32)
            }
        },
        _ => None,
    }
}

/// First value stored under a key in an association list of labels.
pub open spec fn spec_assoc_get(m: Seq<(String, String)>, k: Seq<char>) -> Option<Seq<char>>
    decreases m.len(),
{
    if m.len() == 0 {
        None
    } else if m[0].0@ == k {
        Some(m[0].1@)
    } else {
        spec_assoc_get(m.drop_first(), k)
    }
}

/// Look a label up in an association list.
pub fn assoc_get(m: &Vec<(String, String)>, k: &str) -> (r: Option<String>)
    ensures
        match r {
            Some(s) => spec_assoc_get(m@, k@) == Some(s@),
            None => spec_assoc_get(m@, k@) is None,
        },
{
    let n = m.len();
    let mut i: usize = 0;
    proof {
        assert(m@.skip(0) =~= m@);
    }
    while i < n
        invariant
            0 <= i <= n,
            n == m@.len(),
            spec_assoc_get(m@, k@) == spec_assoc_get(m@.skip(i as int), k@),
        decreases n - i,
    {
        proof {
            assert(m@.skip(i as int)[0] == m@[i as int]);
            assert(m@.skip(i as int).drop_first() =~= m@.skip(i + 1 as int));
        }
        if str_eq(m[i].0.as_str(), k) {
            return Some(m[i].1.clone());
        }
        i = i + 1;
    }
    None
}

/// How a property value is rendered for display: integers through the
/// state map where one applies (falling back to their digits), fractional
/// values rounded to a whole number, strings and booleans as themselves.
pub open spec fn spec_value_str(v: PropValue, state_map: Seq<(String, String)>) -> Seq<char> {
    match v {
        PropValue::U32(x) => match spec_assoc_get(state_map, spec_u64_str(x as int)) {
            Some(lbl) => lbl,
            None => spec_u64_str(x as int),
        },
        PropValue::I32(x) => match spec_assoc_get(state_map, spec_i64_str(x as int)) {
            Some(lbl) => lbl,
            None => spec_i64_str(x as int),
        },
        PropValue::Centi(c) => spec_centi_str(c as int),
        PropValue::I64(x) => spec_i64_str(x as int),
        PropValue::U64(x) => spec_u64_str(x as int),
        PropValue::Str(s) => s@,
        PropValue::Bool(b) => if b {
            "true"@
        } else {
            "false"@
        },
    }
}

/// Render a property value for display, mapping raw integer states through
/// the state map.
pub fn value_to_string(v: &PropValue, state_map: &Vec<(String, String)>) -> (r: String)
    requires
        spec_prop_ok(*v),
    ensures
        r@ == spec_value_str(*v, state_map@),
{
    match v {
        PropValue::U32(x) => {
            let digits = u64_to_string(*x as u64);
            match assoc_get(state_map, digits.as_str()) {
                Some(lbl) => lbl,
                None => digits,
            }
        },
        PropValue::I32(x) => {
            let digits = i64_to_string(*x as i64);
            match assoc_get(state_map, digits.as_str()) {
                Some(lbl) => lbl,
                None => digits,
            }
        },
        PropValue::Centi(c) => centi_to_string(*c),
        PropValue::I64(x) => i64_to_string(*x),
        PropValue::U64(x) => u64_to_string(*x),
        PropValue::Str(s) => s.clone(),
        PropValue::Bool(b) => {
            if *b {
                String::from_str("true")
            } else {
                String::from_str("false")
            }
        },
    }
}

/// Last accepted trigger time per rule name, in milliseconds.
pub struct DebounceTable {
    entries: Vec<(String, u64)>,
}

impl View for DebounceTable {
    type V = Seq<(String, u64)>;

    closed spec fn view(&self) -> Seq<(String, u64)> {
        self.entries@
    }
}

/// First trigger time stored under a rule name.
pub open spec fn spec_table_get(t: Seq<(String, u64)>, k: Seq<char>) -> Option<u64>
    decreases t.len(),
{
    if t.len() == 0 {
        None
    } else if t[0].0@ == k {
        Some(t[0].1)
    } else {
        spec_table_get(t.drop_first(), k)
    }
}

impl DebounceTable {
    /// An empty table: no rule has triggered yet.
    pub fn new() -> (r: Self)
        ensures
            r@.len() == 0,
    {
        DebounceTable { entries: Vec::new() }
    }

    /// When the named rule last triggered.
    pub fn last_trigger(&self, name: &str) -> (r: Option<u64>)
        ensures
            r == spec_table_get(self@, name@),
    {
        let n = self.entries.len();
        let mut i: usize = 0;
        proof {
            assert(self@.skip(0) =~= self@);
        }
        while i < n
            invariant
                0 <= i <= n,
                n == self.entries@.len(),
                self@ == self.entries@,
                spec_table_get(self@, name@) == spec_table_get(self@.skip(i as int), name@),
            decreases n - i,
        {
            proof {
                assert(self@.skip(i as int)[0] == self@[i as int]);
                assert(self@.skip(i as int).drop_first() =~= self@.skip(i + 1 as int));
            }
            if str_eq(self.entries[i].0.as_str(), name) {
                return Some(self.entries[i].1);
            }
            i = i + 1;
        }
        None
    }

    /// Note that the named rule triggered now.
    pub fn record(&mut self, name: &str, now: u64)
        ensures
            spec_table_get(final(self)@, name@) == Some(now),
            forall|q: Seq<char>|
                q != name@ ==> #[trigger] spec_table_get(final(self)@, q) == spec_table_get(
                    old(self)@,
                    q,
                ),
    {
        let n = self.entries.len();
        let mut i: usize = 0;
        while i < n
            invariant
                0 <= i <= n,
                n == self.entries@.len(),
                self.entries@ == old(self)@,
                forall|j: int| 0 <= j < i ==> #[trigger] self.entries@[j].0@ != name@,
            decreases n - i,
        {
            if str_eq(self.entries[i].0.as_str(), name) {
                let key = self.entries[i].0.clone();
                self.entries.set(i, (key, now));
                proof {
                    assert(self.entries@ =~= old(self)@.update(
                        i as int,
                        (old(self)@[i as int].0, now),
                    ));
                    lemma_table_set_get(old(self)@, i as int, now, name@, name@);
                    assert forall|q: Seq<char>| q != name@ implies #[trigger] spec_table_get(
                        self.entries@,
                        q,
                    ) == spec_table_get(old(self)@, q) by {
                        lemma_table_set_get(old(self)@, i as int, now, name@, q);
                    }
                }
                return ;
            }
            i = i + 1;
        }
        let fresh = String::from_str(name);
        let ghost pushed = fresh;
        self.entries.push((fresh, now));
        proof {
            lemma_table_push_get(old(self)@, pushed, now, name@);
            assert forall|q: Seq<char>| q != name@ implies #[trigger] spec_table_get(
                self.entries@,
                q,
            ) == spec_table_get(old(self)@, q) by {
                lemma_table_push_get(old(self)@, pushed, now, q);
            }
        }
    }
}

/// One property-change message, as the transport hands it to the matcher:
/// header attributes, the optional leading string argument, and the
/// changed-property set.
pub struct BusMessage {
    pub interface: String,
    pub member: String,
    pub path: String,
    pub arg0: Option<String>,
    pub props: Vec<(String, PropValue)>,
}

/// Every property value of the message is within the model's range.
pub open spec fn spec_msg_wf(m: BusMessage) -> bool {
    forall|i: int| 0 <= i < m.props@.len() ==> spec_prop_ok(#[trigger] m.props@[i].1)
}

/// Whether the changed-property set contains a key.
pub open spec fn spec_has_key(props: Seq<(String, PropValue)>, k: Seq<char>) -> bool {
    exists|i: int| 0 <= i < props.len() && (#[trigger] props[i].0)@ == k
}

/// Test whether a changed property is present.
pub fn has_key(props: &Vec<(String, PropValue)>, k: &str) -> (r: bool)
    ensures
        r == spec_has_key(props@, k@),
{
    let n = props.len();
    let mut i: usize = 0;
    while i < n
        invariant
            0 <= i <= n,
            n == props@.len(),
            forall|j: int| 0 <= j < i ==> (#[trigger] props@[j].0)@ != k@,
        decreases n - i,
    {
        if str_eq(props[i].0.as_str(), k) {
            return true;
        }
        i = i + 1;
    }
    false
}

/// First value stored under a key in the changed-property set.
pub open spec fn spec_prop_get(props: Seq<(String, PropValue)>, k: Seq<char>) -> Option<
    PropValue,
>
    decreases props.len(),
{
    if props.len() == 0 {
        None
    } else if props[0].0@ == k {
        Some(props[0].1)
    } else {
        spec_prop_get(props.drop_first(), k)
    }
}

/// Look a changed property up.
pub fn prop_get<'a>(props: &'a Vec<(String, PropValue)>, k: &str) -> (r: Option<&'a PropValue>)
    ensures
        match r {
            Some(v) => spec_prop_get(props@, k@) == Some(*v),
            None => spec_prop_get(props@, k@) is None,
        },
{
    let n = props.len();
    let mut i: usize = 0;
    proof {
        assert(props@.skip(0) =~= props@);
    }
    while i < n
        invariant
            0 <= i <= n,
            n == props@.len(),
            spec_prop_get(props@, k@) == spec_prop_get(props@.skip(i as int), k@),
        decreases n - i,
    {
        proof {
            assert(props@.skip(i as int)[0] == props@[i as int]);
            assert(props@.skip(i as int).drop_first() =~= props@.skip(i + 1 as int));
        }
        if str_eq(props[i].0.as_str(), k) {
            return Some(&props[i].1);
        }
        i = i + 1;
    }
    None
}

/// A value found in a well-formed property set is in range.
pub proof fn lemma_prop_get_ok(props: Seq<(String, PropValue)>, k: Seq<char>)
    requires
        forall|i: int| 0 <= i < props.len() ==> spec_prop_ok(#[trigger] props[i].1),
        spec_prop_get(props, k) is Some,
    ensures
        spec_prop_ok(spec_prop_get(props, k)->Some_0),
    decreases props.len(),
{
    if props.len() > 0 && props[0].0@ != k {
        assert(forall|i: int|
            0 <= i < props.len() - 1 ==> #[trigger] props.drop_first()[i] == props[i + 1]);
        lemma_prop_get_ok(props.drop_first(), k);
    }
}

/// Whether the trigger condition of an event holds for a changed-property
/// set: an empty list always fires; otherwise all listed keys must be
/// present when `require_all` is set, any one of them when it is not.
pub open spec fn spec_trigger_ok(c: ConditionsConfig, props: Seq<(String, PropValue)>) -> bool {
    if c.trigger_on@.len() == 0 {
        true
    } else if c.require_all {
        forall|i: int|
            0 <= i < c.trigger_on@.len() ==> spec_has_key(props, (#[trigger] c.trigger_on@[i])@)
    } else {
        exists|i: int|
            0 <= i < c.trigger_on@.len() && spec_has_key(props, (#[trigger] c.trigger_on@[i])@)
    }
}

/// Evaluate an event's trigger condition.
pub fn trigger_ok(c: &ConditionsConfig, props: &Vec<(String, PropValue)>) -> (r: bool)
    ensures
        r == spec_trigger_ok(*c, props@),
{
    let n = c.trigger_on.len();
    if n == 0 {
        return true;
    }
    if c.require_all {
        let mut i: usize = 0;
        while i < n
            invariant
                0 <= i <= n,
                1 <= n == c.trigger_on@.len(),
                c.require_all,
                forall|j: int|
                    0 <= j < i ==> spec_has_key(props@, (#[trigger] c.trigger_on@[j])@),
            decreases n - i,
        {
            if !has_key(props, c.trigger_on[i].as_str()) {
                return false;
            }
            i = i + 1;
        }
        true
    } else {
        let mut i: usize = 0;
        while i < n
            invariant
                0 <= i <= n,
                1 <= n == c.trigger_on@.len(),
                !c.require_all,
                forall|j: int|
                    0 <= j < i ==> !spec_has_key(props@, (#[trigger] c.trigger_on@[j])@),
            decreases n - i,
        {
            if has_key(props, c.trigger_on[i].as_str()) {
                return true;
            }
            i = i + 1;
        }
        false
    }
}

/// Whether the optional expected leading argument is satisfied: no
/// expectation always passes; an expectation needs an equal argument.
pub open spec fn spec_arg0_ok(expected: Option<String>, actual: Option<String>) -> bool {
    match expected {
        None => true,
        Some(e) => actual matches Some(a) && a@ == e@,
    }
}

/// Test the leading-argument condition.
pub fn arg0_ok(expected: &Option<String>, actual: &Option<String>) -> (r: bool)
    ensures
        r == spec_arg0_ok(*expected, *actual),
{
    match expected {
        None => true,
        Some(e) => match actual {
            Some(a) => str_eq(a.as_str(), e.as_str()),
            None => false,
        },
    }
}

/// Whether the debounce window lets a rule fire: a zero window always
/// does; otherwise at least `ms` milliseconds must have passed since the
/// rule's last accepted trigger.
pub open spec fn spec_debounce_allows(
    t: Seq<(String, u64)>,
    name: Seq<char>,
    ms: u64,
    now: u64,
) -> bool {
    ms == 0 || match spec_table_get(t, name) {
        None => true,
        Some(last) => {
            let elapsed = if now >= last {
                now - last
            } else {
                0
            };
            elapsed >= ms
        },
    }
}

/// Evaluate the debounce window for a rule.
pub fn debounce_allows(table: &DebounceTable, name: &str, ms: u64, now: u64) -> (r: bool)
    ensures
        r == spec_debounce_allows(table@, name@, ms, now),
{
    if ms == 0 {
        return true;
    }
    match table.last_trigger(name) {
        None => true,
        Some(last) => {
            let elapsed: u64 = if now >= last {
                now - last
            } else {
                0
            };
            elapsed >= ms
        },
    }
}

/// Updating the first entry under a name behaves as recording under it.
proof fn lemma_table_set_get(t: Seq<(String, u64)>, i: int, v: u64, k: Seq<char>, q: Seq<char>)
    requires
        0 <= i < t.len(),
        t[i].0@ == k,
        forall|j: int| 0 <= j < i ==> #[trigger] t[j].0@ != k,
    ensures
        spec_table_get(t.update(i, (t[i].0, v)), q) == if q == k {
            Some(v)
        } else {
            spec_table_get(t, q)
        },
    decreases i,
{
    let t2 = t.update(i, (t[i].0, v));
    if i == 0 {
        assert(t2[0] == (t[0].0, v));
        assert(t2.drop_first() =~= t.drop_first());
    } else {
        lemma_table_set_get(t.drop_first(), i - 1, v, k, q);
        assert(t2[0] == t[0]);
        assert(t2.drop_first() =~= t.drop_first().update(i - 1, (t.drop_first()[i - 1].0, v)));
        assert(t.drop_first()[i - 1] == t[i]);
    }
}

/// Appending a fresh entry behaves as recording under its name.
proof fn lemma_table_push_get(t: Seq<(String, u64)>, nm: String, v: u64, q: Seq<char>)
    requires
        forall|j: int| 0 <= j < t.len() ==> #[trigger] t[j].0@ != nm@,
    ensures
        spec_table_get(t.push((nm, v)), q) == if q == nm@ {
            Some(v)
        } else {
            spec_table_get(t, q)
        },
    decreases t.len(),
{
    let t2 = t.push((nm, v));
    if t.len() == 0 {
        assert(t2[0] == (nm, v));
        assert(t2.drop_first() =~= Seq::<(String, u64)>::empty());
    } else {
        assert(forall|j: int|
            0 <= j < t.len() - 1 ==> #[trigger] t.drop_first()[j].0@ != nm@) by {
            assert(forall|j: int|
                0 <= j < t.len() - 1 ==> t.drop_first()[j] == #[trigger] t[j + 1]);
        }
        lemma_table_push_get(t.drop_first(), nm, v, q);
        assert(t2[0] == t[0]);
        assert(t2.drop_first() =~= t.drop_first().push((nm, v)));
        assert(t[0].0@ != nm@);
        assert(spec_table_get(t2, q) == if t2[0].0@ == q {
            Some(t2[0].1)
        } else {
            spec_table_get(t2.drop_first(), q)
        });
        assert(spec_table_get(t, q) == if t[0].0@ == q {
            Some(t[0].1)
        } else {
            spec_table_get(t.drop_first(), q)
        });
    }
}

/// Whether a device path names a battery, by the UPower naming convention.
pub open spec fn spec_path_is_battery(path: Seq<char>) -> bool {
    contains_seq(path, "battery"@) || contains_seq(path, "BAT"@)
}

/// Test whether a device path names a battery.
pub fn path_is_battery(path: &str) -> (r: bool)
    ensures
        r == spec_path_is_battery(path@),
{
    contains(path, "battery") || contains(path, "BAT")
}

/// What the generic extraction yields: for each `(field, key)` pair in
/// turn, a present key overwrites the field — `percentage` through numeric
/// widening, `state` through display rendering with the state map.
pub open spec fn spec_extract_observation(
    extract: Seq<(String, String)>,
    props: Seq<(String, PropValue)>,
    state_map: Seq<(String, String)>,
) -> (Option<i64>, Option<Seq<char>>)
    decreases extract.len(),
{
    if extract.len() == 0 {
        (None, None)
    } else {
        let prev = spec_extract_observation(extract.drop_last(), props, state_map);
        let field = extract.last().0@;
        let key = extract.last().1@;
        match spec_prop_get(props, key) {
            Some(v) => if field == "percentage"@ {
                (spec_extract_centi(v), prev.1)
            } else if field == "state"@ {
                (prev.0, Some(spec_value_str(v, state_map)))
            } else {
                prev
            },
            None => prev,
        }
    }
}

/// Extract a normalized observation from the changed-property set by an
/// event's extraction table.
pub fn extract_observation(e: &EventConfig, props: &Vec<(String, PropValue)>) -> (r: (
    Option<i64>,
    Option<String>,
))
    requires
        forall|i: int| 0 <= i < props@.len() ==> spec_prop_ok(#[trigger] props@[i].1),
    ensures
        ({
            let spec = spec_extract_observation(e.extract@, props@, e.state_map@);
            &&& r.0 == spec.0
            &&& match r.1 {
                Some(s) => spec.1 == Some(s@),
                None => spec.1 is None,
            }
        }),
{
    let n = e.extract.len();
    let mut pct: Option<i64> = None;
    let mut state: Option<String> = None;
    let mut i: usize = 0;
    while i < n
        invariant
            0 <= i <= n,
            n == e.extract@.len(),
            forall|j: int| 0 <= j < props@.len() ==> spec_prop_ok(#[trigger] props@[j].1),
            ({
                let spec = spec_extract_observation(
                    e.extract@.take(i as int),
                    props@,
                    e.state_map@,
                );
                &&& pct == spec.0
                &&& match state {
                    Some(s) => spec.1 == Some(s@),
                    None => spec.1 is None,
                }
            }),
        decreases n - i,
    {
        proof {
            assert(e.extract@.take(i + 1 as int).drop_last() =~= e.extract@.take(i as int));
            assert(e.extract@.take(i + 1 as int).last() == e.extract@[i as int]);
        }
        match prop_get(props, e.extract[i].1.as_str()) {
            Some(v) => {
                proof {
                    lemma_prop_get_ok(props@, e.extract@[i as int].1@);
                }
                if str_eq(e.extract[i].0.as_str(), "percentage") {
                    pct = extract_centi(v);
                } else if str_eq(e.extract[i].0.as_str(), "state") {
                    state = Some(value_to_string(v, &e.state_map));
                }
            },
            None => {},
        }
        i = i + 1;
    }
    proof {
        assert(e.extract@.take(n as int) =~= e.extract@);
    }
    (pct, state)
}

/// What the battery fallback yields from the changed-property set alone:
/// the `Percentage` property widened, the `State` property mapped through
/// the UPower labels.
pub open spec fn spec_battery_fallback(props: Seq<(String, PropValue)>) -> (
    Option<i64>,
    Option<Seq<char>>,
) {
    let p = match spec_prop_get(props, "Percentage"@) {
        Some(v) => spec_extract_centi(v),
        None => None,
    };
    let s = match spec_prop_get(props, "State"@) {
        Some(v) => match spec_extract_u32(v) {
            Some(u) => Some(spec_upower_state(u)),
            None => None,
        },
        None => None,
    };
    (p, s)
}

/// Extract the battery observation from the changed-property set, for when
/// the follow-up state query cannot be made or fails.
pub fn battery_fallback(props: &Vec<(String, PropValue)>) -> (r: (Option<i64>, Option<String>))
    ensures
        ({
            let spec = spec_battery_fallback(props@);
            &&& r.0 == spec.0
            &&& match r.1 {
                Some(s) => spec.1 == Some(s@),
                None => spec.1 is None,
            }
        }),
{
    let pct = match prop_get(props, "Percentage") {
        Some(v) => extract_centi(v),
        None => None,
    };
    let state = match prop_get(props, "State") {
        Some(v) => match extract_u32(v) {
            Some(u) => Some(upower_state_to_string(u)),
            None => None,
        },
        None => None,
    };
    (pct, state)
}

/// A normalized observation derived from one matched bus message.
#[derive(Clone, Debug)]
pub struct NotifyEvent {
    pub event_name: String,
    pub message: String,
    /// Pairs of (field, rendered value) for template substitution.
    pub values: Vec<(String, String)>,
    /// Percentage in hundredths, where one was extracted.
    pub percentage: Option<i64>,
    pub state: Option<String>,
}

/// What the control loop receives from the listeners.
pub enum Event {
    Notify(NotifyEvent),
}

/// The substitution values of an observation: its percentage rounded for
/// display, and its state label.
pub open spec fn spec_obs_values(p: Option<i64>, s: Option<Seq<char>>) -> Seq<
    (Seq<char>, Seq<char>),
> {
    (match p {
        Some(pv) => seq![("percentage"@, spec_centi_str(pv as int))],
        None => Seq::<(Seq<char>, Seq<char>)>::empty(),
    }) + (match s {
        Some(sv) => seq![("state"@, sv)],
        None => Seq::<(Seq<char>, Seq<char>)>::empty(),
    })
}

/// Build the observation for an event from an extracted (or queried)
/// percentage/state pair, formatting its message from the event's
/// template.
pub fn build_notify_event(e: &EventConfig, percentage: Option<i64>, state: Option<String>) -> (r:
    NotifyEvent)
    requires
        percentage matches Some(p) ==> -PERCENT_LIMIT <= p <= PERCENT_LIMIT,
    ensures
        r.event_name@ == e.name@,
        r.percentage == percentage,
        r.state == state,
        r.values.deep_view() == spec_obs_values(
            percentage,
            match state {
                Some(s) => Some(s@),
                None => None,
            },
        ),
        r.message@ == spec_format_message(
            e.format.message@,
            spec_obs_values(
                percentage,
                match state {
                    Some(s) => Some(s@),
                    None => None,
                },
            ),
        ),
{
    let mut values: Vec<(String, String)> = Vec::new();
    if let Some(p) = percentage {
        values.push((String::from_str("percentage"), centi_to_string(p)));
    }
    let state_out: Option<String> = match &state {
        Some(s) => {
            values.push((String::from_str("state"), s.clone()));
            Some(s.clone())
        },
        None => None,
    };
    proof {
        assert(values.deep_view() =~= spec_obs_values(
            percentage,
            match state {
                Some(s) => Some(s@),
                None => None,
            },
        ));
    }
    let message = crate::events::format_message(e.format.message.as_str(), &values);
    NotifyEvent {
        event_name: e.name.clone(),
        message,
        values,
        percentage,
        state: state_out,
    }
}

/// Whether an event is even in play for a message: enabled, on the right
/// bus, and with its match rule and leading-argument condition satisfied.
pub open spec fn spec_event_applies(e: EventConfig, bus: Seq<char>, m: BusMessage) -> bool {
    &&& e.enabled
    &&& e.bus@ == bus
    &&& spec_rule_matches(e.match_rule, m.interface@, m.member@, m.path@)
    &&& spec_arg0_ok(e.match_rule.arg0, m.arg0)
}

/// Whether an event fires for a message: it applies, its trigger condition
/// holds, and its debounce window is clear.
pub open spec fn spec_event_fires(
    e: EventConfig,
    bus: Seq<char>,
    m: BusMessage,
    t: Seq<(String, u64)>,
    now: u64,
) -> bool {
    &&& spec_event_applies(e, bus, m)
    &&& spec_trigger_ok(e.conditions, m.props@)
    &&& spec_debounce_allows(t, e.name@, e.conditions.debounce_ms, now)
}

/// What must still happen before an accepted trigger becomes an
/// observation: for a battery path, a best-effort follow-up state query,
/// with the extracted values as the fallback.
pub struct Pending {
    /// The originating path names a battery, so a follow-up query for a
    /// consistent percentage/state pair is in order.
    pub needs_battery_query: bool,
    /// Percentage extracted from the changed properties, in hundredths.
    pub percentage: Option<i64>,
    /// State extracted from the changed properties.
    pub state: Option<String>,
}

/// The pending observation carries exactly what the message yields: the
/// battery fallback for battery paths, the event's extraction otherwise.
pub open spec fn spec_pending_ok(e: EventConfig, m: BusMessage, p: Pending) -> bool {
    &&& p.needs_battery_query == spec_path_is_battery(m.path@)
    &&& {
        let spec = if p.needs_battery_query {
            spec_battery_fallback(m.props@)
        } else {
            spec_extract_observation(e.extract@, m.props@, e.state_map@)
        };
        &&& p.percentage == spec.0
        &&& match p.state {
            Some(s) => spec.1 == Some(s@),
            None => spec.1 is None,
        }
    }
}

/// Run one event against one message: decide whether it fires, record the
/// trigger time when it does, and hand back what was extracted.
pub fn handle_event(
    e: &EventConfig,
    bus: &str,
    msg: &BusMessage,
    table: &mut DebounceTable,
    now_ms: u64,
) -> (r: Option<Pending>)
    requires
        spec_msg_wf(*msg),
    ensures
        r is Some == spec_event_fires(*e, bus@, *msg, old(table)@, now_ms),
        r matches Some(p) ==> spec_pending_ok(*e, *msg, p),
        r is Some ==> spec_table_get(final(table)@, e.name@) == Some(now_ms) && forall|
            q: Seq<char>,
        |
            q != e.name@ ==> #[trigger] spec_table_get(final(table)@, q) == spec_table_get(
                old(table)@,
                q,
            ),
        r is None ==> final(table)@ == old(table)@,
{
    if !e.enabled {
        return None;
    }
    if !str_eq(e.bus.as_str(), bus) {
        return None;
    }
    if !e.match_rule.matches(msg.interface.as_str(), msg.member.as_str(), msg.path.as_str()) {
        return None;
    }
    if !arg0_ok(&e.match_rule.arg0, &msg.arg0) {
        return None;
    }
    if !trigger_ok(&e.conditions, &msg.props) {
        return None;
    }
    if !debounce_allows(table, e.name.as_str(), e.conditions.debounce_ms, now_ms) {
        return None;
    }
    table.record(e.name.as_str(), now_ms);
    let needs_battery_query = path_is_battery(msg.path.as_str());
    let (percentage, state) = if needs_battery_query {
        battery_fallback(&msg.props)
    } else {
        extract_observation(e, &msg.props)
    };
    Some(Pending { needs_battery_query, percentage, state })
}

/// Whether some fired entry of a run's result names an event called `q`.
pub open spec fn spec_result_has_name(
    events: Seq<EventConfig>,
    result: Seq<(usize, Pending)>,
    q: Seq<char>,
) -> bool {
    exists|k: int|
        0 <= k < result.len() && (#[trigger] result[k]).0 < events.len() && events[result[k].0 as int].name@ == q
}

/// Run every configured event against one message, in definition order,
/// threading the debounce table through: the per-message half of the bus
/// listener.
///
/// Each returned pair is the index of a fired event with what it
/// extracted. The table afterwards holds `now_ms` exactly for the names
/// that fired. An event that fires against the incoming table and has no
/// earlier event of the same name is guaranteed a place in the result.
pub fn process_message(
    events: &Vec<EventConfig>,
    bus: &str,
    msg: &BusMessage,
    table: &mut DebounceTable,
    now_ms: u64,
) -> (r: Vec<(usize, Pending)>)
    requires
        spec_msg_wf(*msg),
    ensures
        forall|k: int|
            0 <= k < r@.len() ==> {
                let (i, p) = #[trigger] r@[k];
                &&& i < events@.len()
                &&& spec_event_applies(events@[i as int], bus@, *msg)
                &&& spec_trigger_ok(events@[i as int].conditions, msg.props@)
                &&& spec_pending_ok(events@[i as int], *msg, p)
            },
        forall|k1: int, k2: int| 0 <= k1 < k2 < r@.len() ==> r@[k1].0 < r@[k2].0,
        forall|q: Seq<char>|
            #[trigger] spec_table_get(final(table)@, q) == if spec_result_has_name(
                events@,
                r@,
                q,
            ) {
                Some(now_ms)
            } else {
                spec_table_get(old(table)@, q)
            },
        forall|i: int|
            0 <= i < events@.len() && spec_event_fires(
                #[trigger] events@[i],
                bus@,
                *msg,
                old(table)@,
                now_ms,
            ) && (forall|j: int| 0 <= j < i ==> events@[j].name@ != events@[i].name@)
                ==> exists|k: int| 0 <= k < r@.len() && (#[trigger] r@[k]).0 == i,
{
    let n = events.len();
    let mut out: Vec<(usize, Pending)> = Vec::new();
    let mut i: usize = 0;
    while i < n
        invariant
            0 <= i <= n,
            n == events@.len(),
            spec_msg_wf(*msg),
            forall|k: int|
                0 <= k < out@.len() ==> {
                    let (ii, p) = #[trigger] out@[k];
                    &&& ii < i
                    &&& spec_event_applies(events@[ii as int], bus@, *msg)
                    &&& spec_trigger_ok(events@[ii as int].conditions, msg.props@)
                    &&& spec_pending_ok(events@[ii as int], *msg, p)
                },
            forall|k1: int, k2: int| 0 <= k1 < k2 < out@.len() ==> out@[k1].0 < out@[k2].0,
            forall|q: Seq<char>|
                #[trigger] spec_table_get(table@, q) == if spec_result_has_name(
                    events@,
                    out@,
                    q,
                ) {
                    Some(now_ms)
                } else {
                    spec_table_get(old(table)@, q)
                },
            forall|ii: int|
                0 <= ii < i && spec_event_fires(
                    #[trigger] events@[ii],
                    bus@,
                    *msg,
                    old(table)@,
                    now_ms,
                ) && (forall|j: int| 0 <= j < ii ==> events@[j].name@ != events@[ii].name@)
                    ==> exists|k: int| 0 <= k < out@.len() && (#[trigger] out@[k]).0 == ii,
        decreases n - i,
    {
        let ghost table_before = table@;
        let ghost out_before = out@;
        let step = handle_event(&events[i], bus, msg, table, now_ms);
        match step {
            Some(p) => {
                out.push((i, p));
                proof {
                    let name = events@[i as int].name@;
                    assert(out@ =~= out_before.push((i, p)));
                    // the new entry names `name`; every other name's table
                    // entry is untouched
                    assert forall|q: Seq<char>| #[trigger] spec_table_get(table@, q)
                        == if spec_result_has_name(events@, out@, q) {
                        Some(now_ms)
                    } else {
                        spec_table_get(old(table)@, q)
                    } by {
                        if q == name {
                            assert(spec_result_has_name(events@, out@, q)) by {
                                assert(out@[out@.len() - 1].0 == i);
                            }
                        } else {
                            assert(spec_table_get(table@, q) == spec_table_get(table_before, q));
                            assert(spec_result_has_name(events@, out@, q)
                                == spec_result_has_name(events@, out_before, q)) by {
                                if spec_result_has_name(events@, out@, q) {
                                    let k = choose|k: int|
                                        0 <= k < out@.len() && (#[trigger] out@[k]).0
                                            < events@.len() && events@[out@[k].0 as int].name@
                                            == q;
                                    assert(k < out_before.len());
                                    assert(out_before[k] == out@[k]);
                                }
                                if spec_result_has_name(events@, out_before, q) {
                                    let k = choose|k: int|
                                        0 <= k < out_before.len() && (#[trigger] out_before[k]).0
                                            < events@.len() && events@[out_before[k].0 as int].name@ == q;
                                    assert(out@[k] == out_before[k]);
                                }
                            }
                        }
                    }
                    // completeness carries over: old entries keep their
                    // indices, and the new index is present
                    assert forall|ii: int|
                        0 <= ii < i + 1 && spec_event_fires(
                            #[trigger] events@[ii],
                            bus@,
                            *msg,
                            old(table)@,
                            now_ms,
                        ) && (forall|j: int|
                            0 <= j < ii ==> events@[j].name@ != events@[ii].name@) implies exists|
                        k: int,
                    | 0 <= k < out@.len() && (#[trigger] out@[k]).0 == ii by {
                        if ii == i {
                            assert(out@[out@.len() - 1].0 == i);
                        } else {
                            let k = choose|k: int|
                                0 <= k < out_before.len() && (#[trigger] out_before[k]).0 == ii;
                            assert(out@[k].0 == ii);
                        }
                    }
                }
            },
            None => {
                proof {
                    // an event that would have fired against the incoming
                    // table, with no earlier event of its name, would have
                    // found the same debounce entry now — so it cannot be
                    // this one
                    assert forall|ii: int|
                        0 <= ii < i + 1 && spec_event_fires(
                            #[trigger] events@[ii],
                            bus@,
                            *msg,
                            old(table)@,
                            now_ms,
                        ) && (forall|j: int|
                            0 <= j < ii ==> events@[j].name@ != events@[ii].name@) implies exists|
                        k: int,
                    | 0 <= k < out@.len() && (#[trigger] out@[k]).0 == ii by {
                        if ii == i {
                            let name = events@[i as int].name@;
                            assert(!spec_result_has_name(events@, out@, name)) by {
                                if spec_result_has_name(events@, out@, name) {
                                    let k = choose|k: int|
                                        0 <= k < out@.len() && (#[trigger] out@[k]).0
                                            < events@.len() && events@[out@[k].0 as int].name@
                                            == name;
                                    assert(events@[out@[k].0 as int].name@ == events@[i as int].name@);
                                }
                            }
                            assert(spec_table_get(table@, name) == spec_table_get(
                                old(table)@,
                                name,
                            ));
                            assert(spec_event_fires(events@[ii], bus@, *msg, table@, now_ms));
                            assert(false);
                        } else {
                            let k = choose|k: int|
                                0 <= k < out@.len() && (#[trigger] out@[k]).0 == ii;
                        }
                    }
                }
            },
        }
        i = i + 1;
    }
    out
}

/// A rule that fires and is recorded cannot fire again within its debounce
/// window: of two triggers of one rule inside the window, exactly the
/// first yields an observation.
pub proof fn lemma_debounce_idempotent(
    e: EventConfig,
    bus: Seq<char>,
    m1: BusMessage,
    m2: BusMessage,
    t1: Seq<(String, u64)>,
    t2: Seq<(String, u64)>,
    now1: u64,
    now2: u64,
)
    requires
        e.conditions.debounce_ms > 0,
        spec_event_fires(e, bus, m1, t1, now1),
        spec_table_get(t2, e.name@) == Some(now1),
        now1 <= now2 < now1 + e.conditions.debounce_ms,
    ensures
        !spec_event_fires(e, bus, m2, t2, now2),
{
}

} // verus!
