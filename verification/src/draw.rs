//! The animation driver: per-frame visibility, alpha and offset as a pure
//! function of the animation kind and the elapsed frame count.
//!
//! Alpha is in thousandths of full opacity, offsets in thousandths of a
//! pixel, so every frame is an exact integer computation.

use vstd::prelude::*;
use crate::config::{Animation, Signal};
use crate::text::{spec_centi_str, spec_replace, centi_to_string, replace};

verus! {

/// Scaled approximation of `|sin x|`: the angle in thousandths of a radian,
/// the result in thousandths. Uses the classical quadratic approximation,
/// exact at multiples of half a period and within a few thousandths
/// elsewhere.
pub open spec fn spec_sin_abs_milli(x: int) -> int {
    let r = x % 3142;
    let q = r * (3142 - r);
    (16000 * q) / (49370420 - 4 * q)
}

/// `r * (3142 - r)` peaks at the midpoint of the half-period.
proof fn lemma_sin_q_bounds(r: int)
    requires
        0 <= r < 3142,
    ensures
        0 <= r * (3142 - r) <= 2468041,
{
    assert(0 <= r * (3142 - r) <= 2468041) by (nonlinear_arith)
        requires
            0 <= r < 3142,
    {
        assert((r - 1571) * (r - 1571) >= 0);
    }
}

/// Compute the scaled `|sin|`.
pub fn sin_abs_milli(x: u64) -> (r: u64)
    ensures
        r == spec_sin_abs_milli(x as int),
        r <= 1000,
{
    let red = x % 3142;
    proof {
        lemma_sin_q_bounds(red as int);
    }
    let q = red * (3142 - red);
    let num = 16000 * q;
    let den = 49370420 - 4 * q;
    let out = num / den;
    proof {
        assert(num <= 1000 * den);
        vstd::arithmetic::div_mod::lemma_div_is_ordered(num as int, 1000 * den, den as int);
        vstd::arithmetic::div_mod::lemma_div_by_multiple(1000, den as int);
    }
    out
}

/// The frame counter after one tick: advance by one, wrapping.
pub open spec fn spec_next_frame(f: int) -> int {
    if f == u32::MAX {
        0
    } else {
        f + 1
    }
}

/// Visibility at a frame: flicker toggles every 15 ticks, everything else
/// stays visible.
pub open spec fn spec_frame_visible(kind: Animation, f: int) -> bool {
    match kind {
        Animation::Flicker => (f / 15) % 2 == 0,
        _ => true,
    }
}

/// Alpha at a frame, in thousandths: pulse breathes between 0.6 and 1.0,
/// fade ramps from 0 to 1 over the first 20 ticks and holds, everything
/// else is opaque. Fade is a fade-in only: no symmetric fade-out is driven
/// from the remaining time to hide.
pub open spec fn spec_frame_alpha(kind: Animation, f: int) -> int {
    match kind {
        Animation::Pulse => 600 + (400 * spec_sin_abs_milli(f * 150)) / 1000,
        Animation::Fade => if f * 50 < 1000 {
            f * 50
        } else {
            1000
        },
        _ => 1000,
    }
}

/// Horizontal offset at a frame, in thousandths of a pixel: slide eases in
/// from 200 pixels to the right over the first 10 ticks.
pub open spec fn spec_frame_offset_x(kind: Animation, f: int) -> int {
    match kind {
        Animation::Slide => {
            let progress = if f * 100 < 1000 {
                f * 100
            } else {
                1000
            };
            let rem = 1000 - progress;
            (rem * rem * rem / 1000000) * 200
        },
        _ => 0,
    }
}

/// Vertical offset at a frame, in thousandths of a pixel: bounce follows a
/// decaying rectified sine, up to 20 pixels upward.
pub open spec fn spec_frame_offset_y(kind: Animation, f: int) -> int {
    match kind {
        Animation::Bounce => {
            let decay = 1000000int / (1000 + f * 20);
            -(spec_sin_abs_milli(f * 200) * decay / 1000 * 20)
        },
        _ => 0,
    }
}

/// Per-notification animation state, recomputed each tick from the frame
/// counter alone.
#[derive(Clone, Copy, Debug, PartialEq, Eq, Structural)]
pub struct DrawState {
    pub frame: u32,
    pub visible: bool,
    /// Opacity in thousandths.
    pub alpha: u32,
    /// Horizontal offset in thousandths of a pixel.
    pub offset_x: i64,
    /// Vertical offset in thousandths of a pixel.
    pub offset_y: i64,
}

/// The state every animation starts from: frame zero, visible, opaque,
/// centered.
pub open spec fn spec_draw_state_initial() -> DrawState {
    DrawState { frame: 0, visible: true, alpha: 1000, offset_x: 0, offset_y: 0 }
}

impl Default for DrawState {
    fn default() -> (r: Self)
        ensures
            r == spec_draw_state_initial(),
    {
        DrawState { frame: 0, visible: true, alpha: 1000, offset_x: 0, offset_y: 0 }
    }
}

impl DrawState {
    /// Advance one frame and recompute visibility, alpha and offsets as a
    /// pure function of the animation kind and the new frame count — the
    /// same frame count always yields the same visual state.
    pub fn tick(&mut self, anim: &Animation)
        ensures
            final(self).frame == spec_next_frame(old(self).frame as int),
            final(self).visible == spec_frame_visible(*anim, final(self).frame as int),
            final(self).alpha == spec_frame_alpha(*anim, final(self).frame as int),
            final(self).offset_x == spec_frame_offset_x(*anim, final(self).frame as int),
            final(self).offset_y == spec_frame_offset_y(*anim, final(self).frame as int),
    {
        self.frame = if self.frame == u32::MAX {
            0
        } else {
            self.frame + 1
        };
        let t = self.frame;
        match anim {
            Animation::Flicker => {
                self.visible = (t / 15) % 2 == 0;
                self.alpha = 1000;
                self.offset_x = 0;
                self.offset_y = 0;
            },
            Animation::Pulse => {
                let s = sin_abs_milli((t as u64) * 150);
                self.visible = true;
                self.alpha = (600 + (400 * s) / 1000) as u32;
                self.offset_x = 0;
                self.offset_y = 0;
            },
            Animation::Fade => {
                self.visible = true;
                let ramp: u64 = (t as u64) * 50;
                self.alpha = if ramp < 1000 {
                    ramp as u32
                } else {
                    1000
                };
                self.offset_x = 0;
                self.offset_y = 0;
            },
            Animation::Slide => {
                self.visible = true;
                self.alpha = 1000;
                let scaled: u64 = (t as u64) * 100;
                let progress: u64 = if scaled < 1000 {
                    scaled
                } else {
                    1000
                };
                let rem: u64 = 1000 - progress;
                proof {
                    assert(rem * rem <= 1000000 && rem * rem * rem <= 1000000000)
                        by (nonlinear_arith)
                        requires
                            0 <= rem <= 1000,
                    ;
                }
                let rem3: u64 = rem * rem * rem;
                self.offset_x = ((rem3 / 1000000) * 200) as i64;
                self.offset_y = 0;
            },
            Animation::Bounce => {
                self.visible = true;
                self.alpha = 1000;
                self.offset_x = 0;
                let s = sin_abs_milli((t as u64) * 200);
                let decay: u64 = 1000000 / (1000 + (t as u64) * 20);
                proof {
                    vstd::arithmetic::div_mod::lemma_div_is_ordered_by_denominator(
                        1000000,
                        1000,
                        1000 + (t as u64) * 20,
                    );
                }
                proof {
                    assert(s * decay <= 1000 * 1000) by (nonlinear_arith)
                        requires
                            0 <= s <= 1000 && 0 <= decay <= 1000,
                    ;
                }
                let lift: u64 = s * decay / 1000 * 20;
                self.offset_y = -(lift as i64);
            },
            Animation::Still => {
                self.visible = true;
                self.alpha = 1000;
                self.offset_x = 0;
                self.offset_y = 0;
            },
        }
    }

    /// Restart the animation from its initial phase.
    pub fn reset(&mut self)
        ensures
            *final(self) == spec_draw_state_initial(),
    {
        self.frame = 0;
        self.visible = true;
        self.alpha = 1000;
        self.offset_x = 0;
        self.offset_y = 0;
    }
}

/// Fade alpha never decreases from one frame to a later one, and is pinned
/// at full opacity from the twentieth tick on.
pub proof fn lemma_fade_alpha_monotone(f1: int, f2: int)
    requires
        0 <= f1 <= f2,
    ensures
        spec_frame_alpha(Animation::Fade, f1) <= spec_frame_alpha(Animation::Fade, f2),
        f2 >= 20 ==> spec_frame_alpha(Animation::Fade, f2) == 1000,
{
}

/// Whether this frame is painted as a fully transparent placeholder rather
/// than the text: a flicker in its off phase, or a fade at negligible
/// alpha.
pub fn is_blank_frame(signal: Option<&Signal>, state: &DrawState) -> (r: bool)
    ensures
        r == match signal {
            Some(sig) => (sig.animation == Animation::Flicker && !state.visible) || (sig.animation
                == Animation::Fade && state.alpha <= 10),
            None => false,
        },
{
    match signal {
        Some(sig) => {
            (sig.animation == Animation::Flicker && !state.visible) || (sig.animation
                == Animation::Fade && state.alpha <= 10)
        },
        None => false,
    }
}

/// What the display text is: the template with `{icon}`, `{message}` and
/// `{percent}` substituted, the percentage rounded to a whole number.
pub open spec fn spec_format_text(
    format: Seq<char>,
    icon: Seq<char>,
    message: Seq<char>,
    percent: int,
) -> Seq<char> {
    spec_replace(
        spec_replace(spec_replace(format, "{icon}"@, icon), "{message}"@, message),
        "{percent}"@,
        spec_centi_str(percent),
    )
}

/// Build the display text from the configured template.
///
/// `percent` is in hundredths of a percent.
pub fn format_text(format: &str, icon: &str, message: &str, percent: i64) -> (r: String)
    requires
        -(i64::MAX - 50) <= percent <= i64::MAX - 50,
    ensures
        r@ == spec_format_text(format@, icon@, message@, percent as int),
{
    let step1 = replace(format, "{icon}", icon);
    let step2 = replace(step1.as_str(), "{message}", message);
    let pct = centi_to_string(percent);
    replace(step2.as_str(), "{percent}", pct.as_str())
}

} // verus!
