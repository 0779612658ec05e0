//! The animatable value kinds: a closed, tag-discriminated set of
//! immutable snapshots of one property at one point in time.

use vstd::prelude::*;
use crate::fixed::{SCALE, FX_MAX};

verus! {

/// A 4-channel, 8-bit-per-channel color.
#[derive(Clone, Copy, Debug, PartialEq, Eq, Structural)]
pub struct Color {
    pub r: u8,
    pub g: u8,
    pub b: u8,
    pub a: u8,
}

impl Color {
    /// A color from its four channels, alpha last.
    pub fn rgba(r: u8, g: u8, b: u8, a: u8) -> (c: Color)
        ensures
            c == (Color { r, g, b, a }),
    {
        Color { r, g, b, a }
    }
}

/// A 2D coordinate pair of fixed-point scalars.
#[derive(Clone, Copy, Debug, PartialEq, Eq, Structural)]
pub struct Point {
    pub x: i64,
    pub y: i64,
}

/// Whether a shadow is drawn inside (inset) or outside its box.
#[derive(Clone, Copy, Debug, PartialEq, Eq, Structural)]
pub enum ShadowPosition {
    Normal,
    Inset,
}

/// A shadow's fill: a flat color, or an opaque gradient descriptor.
/// Only flat-color fills can be interpolated or serialized.
#[derive(Clone, Debug, PartialEq, Eq)]
pub enum Fill {
    Color(Color),
    Gradient(String),
}

/// A drop shadow: offsets, blur, spread (fixed-point scalars), a fill,
/// and the inset/outset position flag.
#[derive(Clone, Debug, PartialEq, Eq)]
pub struct Shadow {
    pub position: ShadowPosition,
    pub x: i64,
    pub y: i64,
    pub blur: i64,
    pub spread: i64,
    pub fill: Fill,
}

impl Shadow {
    /// The shadow's scalars stay within the fixed-point range.
    pub open spec fn wf(self) -> bool {
        &&& -FX_MAX <= self.x <= FX_MAX
        &&& -FX_MAX <= self.y <= FX_MAX
        &&& -FX_MAX <= self.blur <= FX_MAX
        &&& -FX_MAX <= self.spread <= FX_MAX
    }

    /// Whether the fill is a flat color.
    pub open spec fn has_flat_fill(self) -> bool {
        self.fill is Color
    }
}

/// One animatable value: a color, a fixed-point scalar, an opaque
/// gradient descriptor string, a 2D point, or a shadow.
#[derive(Clone, Debug, PartialEq, Eq)]
pub enum Value {
    Color(Color),
    Number(i64),
    Gradient(String),
    Point(Point),
    Shadow(Shadow),
}

impl Value {
    /// Every scalar carried by the value stays within the fixed-point
    /// range.
    pub open spec fn wf(self) -> bool {
        match self {
            Value::Color(_) => true,
            Value::Number(n) => -FX_MAX <= n <= FX_MAX,
            Value::Gradient(_) => true,
            Value::Point(p) => -FX_MAX <= p.x <= FX_MAX && -FX_MAX <= p.y <= FX_MAX,
            Value::Shadow(sh) => sh.wf(),
        }
    }

    /// The color carried by a color value.
    pub fn as_color(&self) -> (r: Option<Color>)
        ensures
            self is Color ==> r == Some(self->Color_0),
            !(self is Color) ==> r is None,
    {
        match self {
            Value::Color(c) => Some(*c),
            _ => None,
        }
    }

    /// The scalar carried by a number value.
    pub fn as_number(&self) -> (r: Option<i64>)
        ensures
            self is Number ==> r == Some(self->Number_0),
            !(self is Number) ==> r is None,
    {
        match self {
            Value::Number(n) => Some(*n),
            _ => None,
        }
    }

    /// The coordinates carried by a point value.
    pub fn as_point(&self) -> (r: Option<Point>)
        ensures
            self is Point ==> r == Some(self->Point_0),
            !(self is Point) ==> r is None,
    {
        match self {
            Value::Point(p) => Some(*p),
            _ => None,
        }
    }

    /// Interpolation is defined exactly between two values of the same
    /// variant, never for gradients, and for shadows only when both
    /// fills are flat colors.
    pub open spec fn blendable_with(self, end: Value) -> bool {
        match (self, end) {
            (Value::Color(_), Value::Color(_)) => true,
            (Value::Number(_), Value::Number(_)) => true,
            (Value::Point(_), Value::Point(_)) => true,
            (Value::Shadow(s), Value::Shadow(e)) => s.has_flat_fill() && e.has_flat_fill(),
            _ => false,
        }
    }
}

} // verus!
