//! Linear interpolation ("lerp") over the animatable value kinds: a
//! blend-by-fraction operation defined for each primitive a value can
//! carry, and dispatched over same-variant value pairs.

use vstd::prelude::*;
use crate::fixed::{SCALE, FX_MAX, FRACTION_MAX, lerp_fx, lerp_fixed};
use super::value::{Color, Fill, Point, Shadow, Value};

verus! {

/// A type that can be blended toward another value of the same type by a
/// fraction `x`. A fraction in `[0, SCALE]` interpolates; one outside it
/// (overshooting curves produce them, and they must not be clamped)
/// extrapolates, up to ten units beyond either end.
pub trait Lerp: Sized {
    /// When the blend is defined for this pair of endpoints.
    spec fn lerp_wf(&self, end: &Self) -> bool;

    /// The blended value.
    spec fn lerp_spec(&self, end: &Self, x: int) -> Self;

    /// Blends `self` toward `end` by the fraction `x`.
    fn lerp(&self, end: &Self, x: i64) -> (r: Self)
        requires
            self.lerp_wf(end),
            -FRACTION_MAX <= x <= FRACTION_MAX,
        ensures
            r == self.lerp_spec(end, x as int),
    ;
}

impl Lerp for i64 {
    open spec fn lerp_wf(&self, end: &i64) -> bool {
        &&& -FX_MAX <= *self <= FX_MAX
        &&& -FX_MAX <= *end <= FX_MAX
    }

    open spec fn lerp_spec(&self, end: &i64, x: int) -> i64 {
        lerp_fx(*self as int, *end as int, x) as i64
    }

    fn lerp(&self, end: &i64, x: i64) -> (r: i64) {
        lerp_fixed(*self, *end, x)
    }
}

/// The blend of one 8-bit channel, saturated to the channel range: an
/// extrapolating fraction that would leave `[0, 255]` clamps to the
/// nearer bound.
pub open spec fn channel_lerp(a: u8, b: u8, x: int) -> u8 {
    let v = lerp_fx(a as int, b as int, x);
    if v < 0 {
        0
    } else if v > 255 {
        255
    } else {
        v as u8
    }
}

/// Blends one 8-bit channel in fixed-point arithmetic, saturating at the
/// channel range.
fn lerp_channel(a: u8, b: u8, x: i64) -> (r: u8)
    requires
        -FRACTION_MAX <= x <= FRACTION_MAX,
    ensures
        r == channel_lerp(a, b, x as int),
{
    let v = lerp_fixed(a as i64, b as i64, x);
    if v < 0 {
        0
    } else if v > 255 {
        255
    } else {
        v as u8
    }
}

impl Lerp for Color {
    open spec fn lerp_wf(&self, end: &Color) -> bool {
        true
    }

    /// Channel-wise blend: alpha, red, green, blue.
    open spec fn lerp_spec(&self, end: &Color, x: int) -> Color {
        Color {
            a: channel_lerp(self.a, end.a, x),
            r: channel_lerp(self.r, end.r, x),
            g: channel_lerp(self.g, end.g, x),
            b: channel_lerp(self.b, end.b, x),
        }
    }

    fn lerp(&self, end: &Color, x: i64) -> (r: Color) {
        let a = lerp_channel(self.a, end.a, x);
        let red = lerp_channel(self.r, end.r, x);
        let g = lerp_channel(self.g, end.g, x);
        let b = lerp_channel(self.b, end.b, x);
        Color { r: red, g, b, a }
    }
}

impl Lerp for Point {
    open spec fn lerp_wf(&self, end: &Point) -> bool {
        &&& -FX_MAX <= self.x <= FX_MAX
        &&& -FX_MAX <= self.y <= FX_MAX
        &&& -FX_MAX <= end.x <= FX_MAX
        &&& -FX_MAX <= end.y <= FX_MAX
    }

    /// Component-wise scalar blend of x and y.
    open spec fn lerp_spec(&self, end: &Point, x: int) -> Point {
        Point {
            x: lerp_fx(self.x as int, end.x as int, x) as i64,
            y: lerp_fx(self.y as int, end.y as int, x) as i64,
        }
    }

    fn lerp(&self, end: &Point, x: i64) -> (r: Point) {
        Point { x: lerp_fixed(self.x, end.x, x), y: lerp_fixed(self.y, end.y, x) }
    }
}

impl Lerp for Shadow {
    /// Both fills must be flat colors; gradient-filled shadows have no
    /// defined blend.
    open spec fn lerp_wf(&self, end: &Shadow) -> bool {
        &&& self.wf()
        &&& end.wf()
        &&& self.has_flat_fill()
        &&& end.has_flat_fill()
    }

    /// Component-wise blend of offsets, blur, spread and fill color; the
    /// position flag is carried from the start unchanged.
    open spec fn lerp_spec(&self, end: &Shadow, x: int) -> Shadow {
        Shadow {
            position: self.position,
            x: lerp_fx(self.x as int, end.x as int, x) as i64,
            y: lerp_fx(self.y as int, end.y as int, x) as i64,
            blur: lerp_fx(self.blur as int, end.blur as int, x) as i64,
            spread: lerp_fx(self.spread as int, end.spread as int, x) as i64,
            fill: Fill::Color(self.fill->Color_0.lerp_spec(&end.fill->Color_0, x)),
        }
    }

    fn lerp(&self, end: &Shadow, x: i64) -> (r: Shadow) {
        let (a, b) = match (&self.fill, &end.fill) {
            (Fill::Color(a), Fill::Color(b)) => (*a, *b),
            _ => {
                // Statically unreachable: both fills are flat colors here.
                proof {
                    assert(false);
                }
                (Color { r: 0, g: 0, b: 0, a: 0 }, Color { r: 0, g: 0, b: 0, a: 0 })
            },
        };
        Shadow {
            position: self.position,
            x: lerp_fixed(self.x, end.x, x),
            y: lerp_fixed(self.y, end.y, x),
            blur: lerp_fixed(self.blur, end.blur, x),
            spread: lerp_fixed(self.spread, end.spread, x),
            fill: Fill::Color(a.lerp(&b, x)),
        }
    }
}

impl Lerp for Value {
    /// Both operands carry the same variant tag, the blend is defined
    /// for that variant, and every scalar is in range.
    open spec fn lerp_wf(&self, end: &Value) -> bool {
        &&& self.wf()
        &&& end.wf()
        &&& self.blendable_with(*end)
    }

    open spec fn lerp_spec(&self, end: &Value, x: int) -> Value {
        match (*self, *end) {
            (Value::Color(s), Value::Color(e)) => Value::Color(s.lerp_spec(&e, x)),
            (Value::Number(s), Value::Number(e)) => Value::Number(s.lerp_spec(&e, x)),
            (Value::Point(s), Value::Point(e)) => Value::Point(s.lerp_spec(&e, x)),
            (Value::Shadow(s), Value::Shadow(e)) => Value::Shadow(s.lerp_spec(&e, x)),
            _ => *self,
        }
    }

    fn lerp(&self, end: &Value, x: i64) -> (r: Value) {
        match (self, end) {
            (Value::Color(s), Value::Color(e)) => Value::Color(s.lerp(e, x)),
            (Value::Number(s), Value::Number(e)) => Value::Number(s.lerp(e, x)),
            (Value::Point(s), Value::Point(e)) => Value::Point(s.lerp(e, x)),
            (Value::Shadow(s), Value::Shadow(e)) => Value::Shadow(s.lerp(e, x)),
            _ => {
                // Statically unreachable: the variants agree here.
                proof {
                    assert(false);
                }
                self.clone()
            },
        }
    }
}

impl Value {
    /// The total form of the blend: `Some` exactly when the two values
    /// can be blended (same non-gradient variant, flat shadow fills),
    /// `None` otherwise. Mismatched variants never yield a value.
    pub fn try_lerp(&self, end: &Value, x: i64) -> (r: Option<Value>)
        requires
            self.wf(),
            end.wf(),
            -FRACTION_MAX <= x <= FRACTION_MAX,
        ensures
            r is Some <==> self.blendable_with(*end),
            self.blendable_with(*end) ==> r == Some(self.lerp_spec(end, x as int)),
    {
        let compatible = match (self, end) {
            (Value::Color(_), Value::Color(_)) => true,
            (Value::Number(_), Value::Number(_)) => true,
            (Value::Point(_), Value::Point(_)) => true,
            (Value::Shadow(s), Value::Shadow(e)) => {
                let sf = matches!(&s.fill, Fill::Color(_));
                let ef = matches!(&e.fill, Fill::Color(_));
                sf && ef
            },
            _ => false,
        };
        if compatible {
            Some(self.lerp(end, x))
        } else {
            None
        }
    }
}

/// Blending a value with itself is the identity, whatever the fraction,
/// interpolating or extrapolating: `lerp(v, v, x) == v` for every
/// blendable `v`.
pub proof fn lemma_self_blend(v: Value, x: int)
    requires
        v.wf(),
        v.blendable_with(v),
        -FRACTION_MAX <= x <= FRACTION_MAX,
    ensures
        v.lerp_spec(&v, x) == v,
{
    lemma_lerp_fx_self_all(x);
}

/// Values of different variants are never blendable, and a gradient
/// never is: together with the contract of `try_lerp` (which returns
/// `Some` exactly on blendable pairs), a mismatched blend yields no
/// value at all, never a silently coerced one.
pub proof fn lemma_mismatched_variants_never_blend(v: Value, w: Value)
    requires
        !(v is Color && w is Color),
        !(v is Number && w is Number),
        !(v is Point && w is Point),
        !(v is Shadow && w is Shadow),
    ensures
        !v.blendable_with(w),
{
}

/// `lerp_fx(a, a, x) == a` for every `a`: the interpolation step adds
/// `(a - a) * x / SCALE`, which is zero.
proof fn lemma_lerp_fx_self_all(x: int)
    ensures
        forall|a: int| #[trigger] lerp_fx(a, a, x) == a,
{
    assert forall|a: int| #[trigger] lerp_fx(a, a, x) == a by {
        assert((a - a) * x == 0) by (nonlinear_arith);
        assert(0int / (SCALE as int) == 0) by {
            vstd::arithmetic::div_mod::lemma_div_of0(SCALE as int);
        }
    }
}

} // verus!
