//! Tests of the animation driver.

use inno::config::Animation;
use inno::draw::{is_blank_frame, DrawState};
use inno::config::{Rgba, Signal};

fn run(kind: Animation, ticks: u32) -> Vec<(bool, u32, i64, i64)> {
    let mut s = DrawState::default();
    let mut out = Vec::new();
    for _ in 0..ticks {
        s.tick(&kind);
        out.push((s.visible, s.alpha, s.offset_x, s.offset_y));
    }
    out
}

#[test]
fn ticking_is_deterministic_for_every_kind() {
    for kind in [
        Animation::Still,
        Animation::Flicker,
        Animation::Pulse,
        Animation::Fade,
        Animation::Slide,
        Animation::Bounce,
    ] {
        let a = run(kind, 100);
        let b = run(kind, 100);
        assert_eq!(a, b);
    }
}

#[test]
fn fade_alpha_is_nondecreasing_then_pinned() {
    let mut s = DrawState::default();
    let mut prev: u32 = 0;
    for frame in 1..=60u32 {
        s.tick(&Animation::Fade);
        assert!(s.alpha >= prev);
        if frame >= 20 {
            assert_eq!(s.alpha, 1000);
        }
        prev = s.alpha;
    }
}

#[test]
fn fade_ramps_in_fiftieths() {
    let mut s = DrawState::default();
    s.tick(&Animation::Fade);
    assert_eq!(s.alpha, 50);
    s.tick(&Animation::Fade);
    assert_eq!(s.alpha, 100);
}

#[test]
fn flicker_toggles_every_fifteen_ticks() {
    let mut s = DrawState::default();
    for frame in 1..=60u32 {
        s.tick(&Animation::Flicker);
        let expected = (frame / 15) % 2 == 0;
        assert_eq!(s.visible, expected);
        assert_eq!(s.alpha, 1000);
    }
}

#[test]
fn pulse_breathes_between_point_six_and_one() {
    let mut s = DrawState::default();
    s.tick(&Animation::Pulse);
    // |sin 0.15| in thousandths is 150 under the driver's approximation
    assert_eq!(s.alpha, 660);
    for _ in 0..200 {
        s.tick(&Animation::Pulse);
        assert!(s.alpha >= 600 && s.alpha <= 1000);
        assert!(s.visible);
    }
}

#[test]
fn slide_eases_in_from_the_right() {
    let mut s = DrawState::default();
    s.tick(&Animation::Slide);
    // progress 0.1, remainder 0.9: 0.9^3 * 200 px in thousandths
    assert_eq!(s.offset_x, 145800);
    for _ in 0..9 {
        s.tick(&Animation::Slide);
    }
    assert_eq!(s.offset_x, 0);
    for _ in 0..10 {
        s.tick(&Animation::Slide);
        assert_eq!(s.offset_x, 0);
    }
}

#[test]
fn bounce_dips_and_decays() {
    let mut s = DrawState::default();
    s.tick(&Animation::Bounce);
    assert_eq!(s.offset_y, -3920);
    for _ in 0..100 {
        s.tick(&Animation::Bounce);
        assert!(s.offset_y <= 0);
        assert!(s.offset_y >= -20000);
    }
}

#[test]
fn still_keeps_everything_fixed() {
    let mut s = DrawState::default();
    for _ in 0..10 {
        s.tick(&Animation::Still);
        assert!(s.visible);
        assert_eq!(s.alpha, 1000);
        assert_eq!(s.offset_x, 0);
        assert_eq!(s.offset_y, 0);
    }
}

#[test]
fn reset_restarts_the_phase() {
    let mut s = DrawState::default();
    for _ in 0..7 {
        s.tick(&Animation::Slide);
    }
    s.reset();
    assert_eq!(s.frame, 0);
    assert!(s.visible);
    assert_eq!(s.alpha, 1000);
    assert_eq!(s.offset_x, 0);
    assert_eq!(s.offset_y, 0);
    s.tick(&Animation::Slide);
    assert_eq!(s.offset_x, 145800);
}

fn sig_with(kind: Animation) -> Signal {
    Signal {
        message: "m".to_string(),
        icon: String::new(),
        icon_size: 2400,
        color: Rgba { r: 1000, g: 1000, b: 1000, a: 1000 },
        threshold: 2000,
        state_filter: "any".to_string(),
        animation: kind,
        duration: 5,
        sound: None,
    }
}

#[test]
fn blank_frames_cover_flicker_off_and_faded_out() {
    let flicker = sig_with(Animation::Flicker);
    let fade = sig_with(Animation::Fade);
    let mut s = DrawState::default();
    s.visible = false;
    assert!(is_blank_frame(Some(&flicker), &s));
    assert!(!is_blank_frame(None, &s));
    let mut f = DrawState::default();
    f.alpha = 10;
    assert!(is_blank_frame(Some(&fade), &f));
    f.alpha = 11;
    assert!(!is_blank_frame(Some(&fade), &f));
    // a visible flicker frame is painted normally
    let v = DrawState::default();
    assert!(!is_blank_frame(Some(&flicker), &v));
}
