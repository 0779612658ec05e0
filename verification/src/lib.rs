//! An animation-easing library: a closed family of easing curves mapping a
//! normalized time to an eased progress, and a typed interpolation system
//! that blends animatable values (numbers, points, colors, shadows) by a
//! fraction and serializes them for a renderer.
//!
//! All scalars are fixed-point `i64` values scaled by [`fixed::SCALE`]; see
//! the `fixed` module.

pub mod curves;
pub mod fixed;
pub mod tween;
