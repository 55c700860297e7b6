//! The orchestrator's decision core: one owner of the notification state,
//! turning each event the control loop receives — observation, animation
//! tick, hide deadline, remote command, reload — into state updates and
//! render directives. The surrounding loop performs the directives; every
//! decision is made here.

use vstd::prelude::*;
use crate::config::{Animation, AppConfig, Signal, spec_find_signal};
use crate::dbus::{NotifyEvent, PERCENT_LIMIT};
use crate::draw::{
    DrawState, spec_draw_state_initial, spec_format_text, spec_frame_alpha, spec_frame_offset_x,
    spec_frame_offset_y, spec_frame_visible, spec_next_frame, format_text,
};
use crate::text::str_eq;

verus! {

/// A command received over the remote-control surface.
#[derive(Clone, Debug)]
pub enum ControlEvent {
    /// Show a caller-supplied message for a number of seconds.
    Show { message: String, duration: u64 },
    /// Hide the current notification.
    Hide,
    /// Reload the configuration.
    Reload,
}

/// Everything the orchestrator owns about the one notification: what is
/// showing, what was last observed, and the animation state.
pub struct NotificationState {
    pub current_text: Option<String>,
    pub prev_state: Option<String>,
    pub prev_signal_msg: Option<String>,
    pub draw_state: DrawState,
    pub animating: bool,
    /// Last observed percentage, in hundredths.
    pub current_percentage: Option<i64>,
    pub current_state: Option<String>,
}

/// The percentage an observation stands for: the extracted one, or a full
/// charge when none was extracted.
pub open spec fn spec_obs_pct(ev: NotifyEvent) -> int {
    match ev.percentage {
        Some(p) => p as int,
        None => 10000,
    }
}

/// The state label an observation stands for: the extracted one, or
/// `unknown`.
pub open spec fn spec_obs_state(ev: NotifyEvent) -> Seq<char> {
    match ev.state {
        Some(s) => s@,
        None => "unknown"@,
    }
}

/// Whether the observation's state differs from the previously seen one.
pub open spec fn spec_state_changed(prev: Option<String>, st: Seq<char>) -> bool {
    match prev {
        Some(p) => p@ != st,
        None => true,
    }
}

/// Whether the resolved signal's message differs from the previously
/// resolved one.
pub open spec fn spec_signal_changed(
    prev: Option<String>,
    signals: Seq<Signal>,
    found: Option<int>,
) -> bool {
    match (prev, found) {
        (Option::None, Option::None) => false,
        (Option::Some(m), Option::Some(k)) => m@ != signals[k].message@,
        _ => true,
    }
}

/// Whether an observation leads to a render: something changed, and a
/// signal definition resolved.
pub open spec fn spec_obs_renders(
    state: NotificationState,
    config: AppConfig,
    ev: NotifyEvent,
) -> bool {
    let found = spec_find_signal(config.signals@, spec_obs_pct(ev), spec_obs_state(ev));
    &&& (spec_state_changed(state.prev_state, spec_obs_state(ev)) || spec_signal_changed(
        state.prev_signal_msg,
        config.signals@,
        found,
    ))
    &&& found is Some
}

/// What the loop must do to show a resolved notification: draw this text
/// with this signal definition, arm the hide timer, start or stop the
/// animation timer, and play the sound if one is configured.
pub struct ShowDirective {
    pub text: String,
    pub signal_index: usize,
    pub duration: u64,
    pub sound: Option<String>,
    pub animating: bool,
}

/// What the loop must do on an animation frame: redraw the unchanged text
/// with the updated visual state.
pub struct TickDirective {
    pub text: String,
    pub signal_index: usize,
}

impl NotificationState {
    /// The state before anything has been observed or shown.
    pub fn new() -> (r: Self)
        ensures
            r.current_text is None,
            r.prev_state is None,
            r.prev_signal_msg is None,
            r.draw_state == spec_draw_state_initial(),
            r.animating == false,
            r.current_percentage is None,
            r.current_state is None,
    {
        NotificationState {
            current_text: None,
            prev_state: None,
            prev_signal_msg: None,
            draw_state: DrawState::default(),
            animating: false,
            current_percentage: None,
            current_state: None,
        }
    }

    /// Take one observation: resolve a signal against the current rule
    /// set, render only when the state or the resolved signal changed, and
    /// remember the observation either way so later changes are detected.
    pub fn on_observation(&mut self, config: &AppConfig, ev: &NotifyEvent) -> (r: Option<
        ShowDirective,
    >)
        requires
            ev.percentage matches Some(p) ==> -PERCENT_LIMIT <= p <= PERCENT_LIMIT,
        ensures
            r is Some == spec_obs_renders(*old(self), *config, *ev),
            r matches Some(d) ==> {
                let pct = spec_obs_pct(*ev);
                let st = spec_obs_state(*ev);
                let found = spec_find_signal(config.signals@, pct, st);
                &&& found == Some(d.signal_index as int)
                &&& d.text@ == spec_format_text(
                    config.format@,
                    config.signals@[d.signal_index as int].icon@,
                    config.signals@[d.signal_index as int].message@,
                    pct,
                )
                &&& d.duration == config.signals@[d.signal_index as int].duration
                &&& (match d.sound {
                    Some(s) => config.signals@[d.signal_index as int].sound matches Some(cs)
                        && cs@ == s@,
                    None => config.signals@[d.signal_index as int].sound is None,
                })
                &&& d.animating == (config.signals@[d.signal_index as int].animation
                    != Animation::Still)
            },
            final(self).prev_state matches Some(s) && s@ == spec_obs_state(*ev),
            final(self).current_state matches Some(s) && s@ == spec_obs_state(*ev),
            final(self).current_percentage == Some(
                (spec_obs_pct(*ev)) as i64,
            ),
            ({
                let found = spec_find_signal(config.signals@, spec_obs_pct(*ev), spec_obs_state(*ev));
                match found {
                    Some(k) => final(self).prev_signal_msg matches Some(m) && m@
                        == config.signals@[k].message@,
                    None => final(self).prev_signal_msg is None,
                }
            }),
            r matches Some(d) ==> {
                &&& final(self).current_text matches Some(t) && t@ == d.text@
                &&& final(self).draw_state == spec_draw_state_initial()
                &&& final(self).animating == d.animating
            },
            r is None ==> {
                &&& final(self).current_text == old(self).current_text
                &&& final(self).draw_state == old(self).draw_state
                &&& final(self).animating == old(self).animating
            },
    {
        let pct: i64 = match ev.percentage {
            Some(p) => p,
            None => 10000,
        };
        let state: String = match &ev.state {
            Some(s) => s.clone(),
            None => String::from_str("unknown"),
        };
        let found = config.find_signal_index(pct, state.as_str());
        let state_changed = match &self.prev_state {
            Some(p) => !str_eq(p.as_str(), state.as_str()),
            None => true,
        };
        let signal_changed = match (&self.prev_signal_msg, found) {
            (Option::None, Option::None) => false,
            (Option::Some(m), Option::Some(k)) => !str_eq(
                m.as_str(),
                config.signals[k].message.as_str(),
            ),
            _ => true,
        };
        let mut out: Option<ShowDirective> = None;
        if state_changed || signal_changed {
            if let Some(k) = found {
                let sig = &config.signals[k];
                let text = format_text(
                    config.format.as_str(),
                    sig.icon.as_str(),
                    sig.message.as_str(),
                    pct,
                );
                let sound: Option<String> = match &sig.sound {
                    Some(s) => Some(s.clone()),
                    None => None,
                };
                let animating = !matches!(sig.animation, Animation::Still);
                self.draw_state.reset();
                self.current_text = Some(text.clone());
                self.animating = animating;
                out = Some(
                    ShowDirective {
                        text,
                        signal_index: k,
                        duration: sig.duration,
                        sound,
                        animating,
                    },
                );
            }
        }
        self.prev_signal_msg = match found {
            Some(k) => Some(config.signals[k].message.clone()),
            None => None,
        };
        self.prev_state = Some(state.clone());
        self.current_percentage = Some(pct);
        self.current_state = Some(state);
        out
    }

    /// Take one animation timer tick: while animating and something is
    /// showing, advance the driver one frame against the currently
    /// resolved signal and redraw the unchanged text.
    pub fn on_animation_tick(&mut self, config: &AppConfig) -> (r: Option<TickDirective>)
        ensures
            r is Some == (old(self).animating && old(self).current_percentage is Some && old(self).current_state is Some && old(self).current_text is Some && spec_find_signal(
                config.signals@,
                old(self).current_percentage->Some_0 as int,
                match old(self).current_state {
                    Some(s) => s@,
                    None => Seq::<char>::empty(),
                },
            ) is Some),
            r matches Some(d) ==> {
                let found = spec_find_signal(
                    config.signals@,
                    old(self).current_percentage->Some_0 as int,
                    old(self).current_state->Some_0@,
                );
                let kind = config.signals@[found->Some_0].animation;
                let nf = spec_next_frame(old(self).draw_state.frame as int);
                &&& found == Some(d.signal_index as int)
                &&& d.text@ == old(self).current_text->Some_0@
                &&& final(self).draw_state.frame == nf
                &&& final(self).draw_state.visible == spec_frame_visible(kind, nf)
                &&& final(self).draw_state.alpha == spec_frame_alpha(kind, nf)
                &&& final(self).draw_state.offset_x == spec_frame_offset_x(kind, nf)
                &&& final(self).draw_state.offset_y == spec_frame_offset_y(kind, nf)
            },
            r is None ==> final(self).draw_state == old(self).draw_state,
            final(self).current_text == old(self).current_text,
            final(self).prev_state == old(self).prev_state,
            final(self).prev_signal_msg == old(self).prev_signal_msg,
            final(self).animating == old(self).animating,
            final(self).current_percentage == old(self).current_percentage,
            final(self).current_state == old(self).current_state,
    {
        if !self.animating {
            return None;
        }
        let pct: i64 = match self.current_percentage {
            Some(p) => p,
            None => {
                return None;
            },
        };
        let state: String = match &self.current_state {
            Some(s) => s.clone(),
            None => {
                return None;
            },
        };
        let text: String = match &self.current_text {
            Some(t) => t.clone(),
            None => {
                return None;
            },
        };
        match config.find_signal_index(pct, state.as_str()) {
            Some(k) => {
                self.draw_state.tick(&config.signals[k].animation);
                Some(TickDirective { text, signal_index: k })
            },
            None => None,
        }
    }

    /// Take the hide deadline: when something is showing, clear it and
    /// stop animating; the caller hides the surface and re-arms the timer
    /// to the idle timeout. Returns whether a hide is due.
    pub fn on_hide_deadline(&mut self) -> (r: bool)
        ensures
            r == old(self).current_text is Some,
            r ==> final(self).current_text is None && final(self).animating == false && final(self).draw_state == spec_draw_state_initial(),
            !r ==> *final(self) == *old(self),
            final(self).prev_state == old(self).prev_state,
            final(self).prev_signal_msg == old(self).prev_signal_msg,
            final(self).current_percentage == old(self).current_percentage,
            final(self).current_state == old(self).current_state,
    {
        if self.current_text.is_some() {
            self.current_text = None;
            self.animating = false;
            self.draw_state.reset();
            true
        } else {
            false
        }
    }

    /// Take a remote `Show`: display the caller's text as it is, without
    /// resolving a signal, and stop animating; the caller draws it and
    /// arms the hide timer to the requested duration.
    pub fn on_control_show(&mut self, message: String)
        ensures
            final(self).current_text == Some(message),
            final(self).animating == false,
            final(self).draw_state == spec_draw_state_initial(),
            final(self).prev_state == old(self).prev_state,
            final(self).prev_signal_msg == old(self).prev_signal_msg,
            final(self).current_percentage == old(self).current_percentage,
            final(self).current_state == old(self).current_state,
    {
        self.draw_state.reset();
        self.current_text = Some(message);
        self.animating = false;
    }

    /// Take a remote `Hide`: clear what is showing and stop animating; the
    /// caller hides the surface and re-arms the timer to the idle timeout.
    pub fn on_control_hide(&mut self)
        ensures
            final(self).current_text is None,
            final(self).animating == false,
            final(self).draw_state == old(self).draw_state,
            final(self).prev_state == old(self).prev_state,
            final(self).prev_signal_msg == old(self).prev_signal_msg,
            final(self).current_percentage == old(self).current_percentage,
            final(self).current_state == old(self).current_state,
    {
        self.current_text = None;
        self.animating = false;
    }
}

/// Reloading replaces the rule set wholesale and touches nothing else: any
/// currently-visible notification keeps its text and animation across a
/// reload.
pub fn apply_reload(config: &mut AppConfig, state: &mut NotificationState, new_config: AppConfig)
    ensures
        *final(config) == new_config,
        *final(state) == *old(state),
{
    *config = new_config;
}

} // verus!
