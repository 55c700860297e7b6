//! Decision engine of a desktop notification daemon.
//!
//! The library turns raw bus signals into normalized observations, resolves
//! the best-matching signal definition for a battery percentage/state pair,
//! drives per-frame animation state, and decides, for every event the
//! surrounding event loop receives, what to render, hide or re-arm.
//! All fractional quantities are carried as fixed-point integers:
//! percentages and thresholds in hundredths, alpha and offsets in
//! thousandths.

pub mod config;
pub mod control;
pub mod dbus;
pub mod draw;
pub mod events;
pub mod text;
