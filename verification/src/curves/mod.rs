//! The curve family: a closed, tag-discriminated set of easing curves with
//! one uniform evaluation contract.
//!
//! Every curve maps a normalized fixed-point time `t` in `[0, SCALE]` to an
//! eased progress. At the exact boundaries the evaluation short-circuits:
//! `t == 0` yields `0` and `t == SCALE` yields `SCALE`, whatever the
//! variant's interior formula would produce there, so an animation always
//! reaches its exact start and end values. Interior times dispatch to the
//! variant's own formula; elastic and back-style cubic curves may overshoot
//! below `0` or above `SCALE` there.

pub mod cubic;
pub mod presets;
pub mod shapes;

use vstd::prelude::*;
use crate::fixed::{
    SCALE, fx_div, fx_mul, fx_mul64, fx_div64, tdiv, lemma_abs_mul_bound, lemma_tdiv_bound,
    lemma_tdiv_scaled_bound, tdiv128,
};
use cubic::{CubicCurve, CUBIC_PARAM_MAX, cubic_val, cubic_transform};
use shapes::{
    bounce_in_val, bounce_out_val, bounce_in_out_val, bounce_in64, bounce_out64, bounce_in_out64,
    elastic_in_val, elastic_out_val, elastic_in_out_val, elastic_in64, elastic_out64,
    elastic_in_out64,
};

verus! {

/// The default oscillation period of the elastic curves (0.4 units).
pub const DEFAULT_ELASTIC_PERIOD: i64 = 400_000;

/// The largest sawtooth ramp count (1000 units).
pub const SAW_TOOTH_MAX: i64 = 1_000_000_000;

/// The largest step count of a stepped curve.
pub const STEP_COUNT_MAX: usize = 1_000_000;

/// Two cubic Bézier segments joined at a midpoint, used to build
/// asymmetric multi-phase eases. The segments' control points are stored
/// already rescaled into each segment's local unit square.
#[derive(Clone, Copy, Debug, PartialEq, Eq, Structural)]
pub struct ThreePointCubic {
    pub mid_x: i64,
    pub mid_y: i64,
    pub first: CubicCurve,
    pub second: CubicCurve,
}

impl ThreePointCubic {
    /// The midpoint stays well inside the unit square, so that both
    /// segments have a nonzero time- and value-span to rescale by.
    pub open spec fn wf(self) -> bool {
        &&& SCALE / 100 <= self.mid_x <= 99 * (SCALE as int) / 100
        &&& SCALE / 100 <= self.mid_y <= 99 * (SCALE as int) / 100
        &&& self.first.wf()
        &&& self.second.wf()
    }

    /// The segments derived from five control points: each segment's
    /// interior control points, rescaled by the segment's time- and
    /// value-span.
    pub open spec fn from_points(
        a1: (i64, i64),
        b1: (i64, i64),
        midpoint: (i64, i64),
        a2: (i64, i64),
        b2: (i64, i64),
    ) -> ThreePointCubic {
        ThreePointCubic {
            mid_x: midpoint.0,
            mid_y: midpoint.1,
            first: (CubicCurve {
                a: fx_div(a1.0 as int, midpoint.0 as int) as i64,
                b: fx_div(a1.1 as int, midpoint.1 as int) as i64,
                c: fx_div(b1.0 as int, midpoint.0 as int) as i64,
                d: fx_div(b1.1 as int, midpoint.1 as int) as i64,
            }),
            second: (CubicCurve {
                a: fx_div(a2.0 - midpoint.0 as int, SCALE - midpoint.0 as int) as i64,
                b: fx_div(a2.1 - midpoint.1 as int, SCALE - midpoint.1 as int) as i64,
                c: fx_div(b2.0 - midpoint.0 as int, SCALE - midpoint.0 as int) as i64,
                d: fx_div(b2.1 - midpoint.1 as int, SCALE - midpoint.1 as int) as i64,
            }),
        }
    }
}

/// The value of a three-point cubic at an interior time: pick the segment
/// by comparing against the midpoint, remap the time into the segment's
/// local range, evaluate the segment, and remap its output back.
pub open spec fn three_point_cubic_val(tpc: ThreePointCubic, t: int) -> int {
    if t < tpc.mid_x {
        fx_mul(cubic_val(tpc.first, fx_div(t, tpc.mid_x as int)), tpc.mid_y as int)
    } else {
        fx_mul(
            cubic_val(tpc.second, fx_div(t - tpc.mid_x, SCALE - tpc.mid_x as int)),
            SCALE - tpc.mid_y as int,
        ) + tpc.mid_y
    }
}

/// The sawtooth value: the fractional part of `t * count`.
pub open spec fn saw_tooth_val(count: int, t: int) -> int {
    tdiv(t * count, SCALE as int) % (SCALE as int)
}

/// The threshold value: zero below the boundary, one at or above it.
pub open spec fn threshold_val(th: int, t: int) -> int {
    if t < th {
        0
    } else {
        SCALE as int
    }
}

/// The decelerate value: `1 - (1 - t)^2`.
pub open spec fn decelerate_val(t: int) -> int {
    SCALE - tdiv((SCALE - t) * (SCALE - t), SCALE as int)
}

/// The stepped value: quantize `t` into `step_count` levels; a raised
/// flag squeezes the first or last level into a single instant, by
/// shifting the level up at the start or by widening the divisor at the
/// end.
pub open spec fn stepped_val(n: int, initial_single: bool, final_single: bool, t: int) -> int {
    let num = tdiv(t * n, SCALE as int) + (if initial_single { 1int } else { 0int });
    let den = n + (if initial_single { 1int } else { 0int }) + (
    if final_single { 1int } else { 0int });
    tdiv(num * SCALE, den)
}

/// A closed, tag-discriminated easing curve. Every variant is a pure
/// function of the time and its fixed construction-time parameters.
#[derive(Clone, Debug, PartialEq, Eq, Structural)]
pub enum Curve {
    Instant,
    Linear,
    Cubic(CubicCurve),
    ThreePointCubic(ThreePointCubic),
    Threshold(i64),
    SawTooth(i64),
    BounceIn,
    BounceOut,
    BounceInOut,
    ElasticIn(i64),
    ElasticOut(i64),
    ElasticInOut(i64),
    Decelerate,
    Stepped(usize, bool, bool),
}

impl Curve {
    /// Parameter bounds under which evaluation is defined: thresholds lie
    /// in the unit interval, ramp counts and step counts are positive and
    /// bounded, elastic periods are positive, and cubic control points
    /// keep the fixed-point polynomial within machine range.
    pub open spec fn wf(self) -> bool {
        match self {
            Curve::Instant => true,
            Curve::Linear => true,
            Curve::Cubic(cc) => cc.wf(),
            Curve::ThreePointCubic(tpc) => tpc.wf(),
            Curve::Threshold(th) => 0 <= th <= SCALE,
            Curve::SawTooth(count) => 0 <= count <= SAW_TOOTH_MAX,
            Curve::BounceIn => true,
            Curve::BounceOut => true,
            Curve::BounceInOut => true,
            Curve::ElasticIn(p) => SCALE / 100 <= p <= 10 * (SCALE as int),
            Curve::ElasticOut(p) => SCALE / 100 <= p <= 10 * (SCALE as int),
            Curve::ElasticInOut(p) => SCALE / 100 <= p <= 10 * (SCALE as int),
            Curve::Decelerate => true,
            Curve::Stepped(n, _, _) => 1 <= n <= STEP_COUNT_MAX,
        }
    }

    /// The variant's own formula at an interior time.
    pub open spec fn internal_value(self, t: int) -> int {
        match self {
            Curve::Instant => SCALE as int,
            Curve::Linear => t,
            Curve::Cubic(cc) => cubic_val(cc, t),
            Curve::ThreePointCubic(tpc) => three_point_cubic_val(tpc, t),
            Curve::Threshold(th) => threshold_val(th as int, t),
            Curve::SawTooth(count) => saw_tooth_val(count as int, t),
            Curve::BounceIn => bounce_in_val(t),
            Curve::BounceOut => bounce_out_val(t),
            Curve::BounceInOut => bounce_in_out_val(t),
            Curve::ElasticIn(p) => elastic_in_val(p as int, t),
            Curve::ElasticOut(p) => elastic_out_val(p as int, t),
            Curve::ElasticInOut(p) => elastic_in_out_val(p as int, t),
            Curve::Decelerate => decelerate_val(t),
            Curve::Stepped(n, i, f) => stepped_val(n as int, i, f, t),
        }
    }

    /// The evaluation contract: exact boundary values first, the
    /// variant's formula on the interior.
    pub open spec fn value_at(self, t: int) -> int {
        if t == 0 {
            0
        } else if t == SCALE {
            SCALE as int
        } else {
            self.internal_value(t)
        }
    }

    /// A single cubic Bézier ease with interior control points `(a, b)`
    /// and `(c, d)`.
    pub fn cubic(a: i64, b: i64, c: i64, d: i64) -> (r: Curve)
        requires
            -CUBIC_PARAM_MAX <= a <= CUBIC_PARAM_MAX,
            -CUBIC_PARAM_MAX <= b <= CUBIC_PARAM_MAX,
            -CUBIC_PARAM_MAX <= c <= CUBIC_PARAM_MAX,
            -CUBIC_PARAM_MAX <= d <= CUBIC_PARAM_MAX,
        ensures
            r == Curve::Cubic((CubicCurve { a, b, c, d })),
            r.wf(),
    {
        Curve::Cubic(CubicCurve { a, b, c, d })
    }

    /// Two joined cubic Bézier segments: `a1`/`b1` control the segment
    /// from the origin to `midpoint`, `a2`/`b2` the segment from
    /// `midpoint` to the far corner.
    pub fn three_point_cubic(
        a1: (i64, i64),
        b1: (i64, i64),
        midpoint: (i64, i64),
        a2: (i64, i64),
        b2: (i64, i64),
    ) -> (r: Curve)
        requires
            -4 * (SCALE as int) <= a1.0 <= 4 * (SCALE as int),
            -4 * (SCALE as int) <= a1.1 <= 4 * (SCALE as int),
            -4 * (SCALE as int) <= b1.0 <= 4 * (SCALE as int),
            -4 * (SCALE as int) <= b1.1 <= 4 * (SCALE as int),
            -4 * (SCALE as int) <= a2.0 <= 4 * (SCALE as int),
            -4 * (SCALE as int) <= a2.1 <= 4 * (SCALE as int),
            -4 * (SCALE as int) <= b2.0 <= 4 * (SCALE as int),
            -4 * (SCALE as int) <= b2.1 <= 4 * (SCALE as int),
            SCALE / 100 <= midpoint.0 <= 99 * (SCALE as int) / 100,
            SCALE / 100 <= midpoint.1 <= 99 * (SCALE as int) / 100,
        ensures
            r == Curve::ThreePointCubic(ThreePointCubic::from_points(a1, b1, midpoint, a2, b2)),
            r.wf(),
    {
        let first = CubicCurve {
            a: scaled_control(a1.0, midpoint.0),
            b: scaled_control(a1.1, midpoint.1),
            c: scaled_control(b1.0, midpoint.0),
            d: scaled_control(b1.1, midpoint.1),
        };
        let second = CubicCurve {
            a: scaled_control(a2.0 - midpoint.0, SCALE - midpoint.0),
            b: scaled_control(a2.1 - midpoint.1, SCALE - midpoint.1),
            c: scaled_control(b2.0 - midpoint.0, SCALE - midpoint.0),
            d: scaled_control(b2.1 - midpoint.1, SCALE - midpoint.1),
        };
        Curve::ThreePointCubic(
            ThreePointCubic { mid_x: midpoint.0, mid_y: midpoint.1, first, second },
        )
    }

    /// A binary step: zero before the boundary, one from it on.
    pub fn threshold(threshold: i64) -> (r: Curve)
        requires
            0 <= threshold <= SCALE,
        ensures
            r == Curve::Threshold(threshold),
            r.wf(),
    {
        Curve::Threshold(threshold)
    }

    /// `count` repeating ramps across the unit interval.
    pub fn saw_tooth(count: i64) -> (r: Curve)
        requires
            0 <= count <= SAW_TOOTH_MAX,
        ensures
            r == Curve::SawTooth(count),
            r.wf(),
    {
        Curve::SawTooth(count)
    }

    /// Progress quantized into `step_count` discrete levels; the flags
    /// squeeze the first or last level into a single instant.
    pub fn stepped(
        step_count: usize,
        is_initial_step_single_frame: bool,
        is_final_step_single_frame: bool,
    ) -> (r: Curve)
        requires
            1 <= step_count <= STEP_COUNT_MAX,
        ensures
            r == Curve::Stepped(
                step_count,
                is_initial_step_single_frame,
                is_final_step_single_frame,
            ),
            r.wf(),
    {
        Curve::Stepped(step_count, is_initial_step_single_frame, is_final_step_single_frame)
    }
}

/// A control coordinate rescaled by a segment span: `v / span` in
/// fixed-point form, bounded enough to serve as a cubic control point.
fn scaled_control(v: i64, span: i64) -> (r: i64)
    requires
        -5 * (SCALE as int) <= v <= 5 * (SCALE as int),
        SCALE / 100 <= span <= SCALE,
    ensures
        r == fx_div(v as int, span as int),
        -CUBIC_PARAM_MAX <= r <= CUBIC_PARAM_MAX,
{
    let r = fx_div64(v, span);
    proof {
        lemma_abs_mul_bound(v as int, SCALE as int, 5 * (SCALE as int), SCALE as int);
        assert((CUBIC_PARAM_MAX as int) * (span as int) >= 5_000_000_000_000int)
            by (nonlinear_arith)
            requires
                span >= 10_000,
                CUBIC_PARAM_MAX == 1_000_000_000,
        ;
        assert(5 * (SCALE as int) * (SCALE as int) == 5_000_000_000_000int) by (nonlinear_arith);
        lemma_tdiv_scaled_bound((v as int) * (SCALE as int), span as int, CUBIC_PARAM_MAX as int);
    }
    r
}

/// The sawtooth formula on machine integers.
fn saw_tooth_at(count: i64, t: i64) -> (r: i64)
    requires
        0 <= count <= SAW_TOOTH_MAX,
        0 <= t <= SCALE,
    ensures
        r == saw_tooth_val(count as int, t as int),
{
    proof {
        lemma_abs_mul_bound(t as int, count as int, SCALE as int, SAW_TOOTH_MAX as int);
        vstd::arithmetic::mul::lemma_mul_nonnegative(t as int, count as int);
        assert((SAW_TOOTH_MAX as int) * (SCALE as int) == 1_000_000_000_000_000int)
            by (nonlinear_arith);
        lemma_tdiv_scaled_bound((t as int) * (count as int), SCALE as int, SAW_TOOTH_MAX as int);
        vstd::arithmetic::div_mod::lemma_div_pos_is_pos((t as int) * (count as int), SCALE as int);
    }
    let x: i64 = tdiv128((t as i128) * (count as i128), SCALE as i128) as i64;
    x % SCALE
}

/// The decelerate formula on machine integers.
fn decelerate_at(t: i64) -> (r: i64)
    requires
        0 <= t <= SCALE,
    ensures
        r == decelerate_val(t as int),
{
    let u: i64 = SCALE - t;
    proof {
        lemma_abs_mul_bound(u as int, u as int, SCALE as int, SCALE as int);
        vstd::arithmetic::mul::lemma_mul_nonnegative(u as int, u as int);
        assert((SCALE as int) * (SCALE as int) == 1_000_000_000_000int) by (nonlinear_arith);
        lemma_tdiv_scaled_bound((u as int) * (u as int), SCALE as int, SCALE as int);
        vstd::arithmetic::div_mod::lemma_div_pos_is_pos((u as int) * (u as int), SCALE as int);
    }
    let sq: i64 = tdiv128((u as i128) * (u as i128), SCALE as i128) as i64;
    SCALE - sq
}

/// The stepped formula on machine integers.
fn stepped_at(n: usize, initial_single: bool, final_single: bool, t: i64) -> (r: i64)
    requires
        1 <= n <= STEP_COUNT_MAX,
        0 <= t <= SCALE,
    ensures
        r == stepped_val(n as int, initial_single, final_single, t as int),
{
    let nn: i64 = n as i64;
    proof {
        lemma_abs_mul_bound(t as int, nn as int, SCALE as int, STEP_COUNT_MAX as int);
        vstd::arithmetic::mul::lemma_mul_nonnegative(t as int, nn as int);
        assert((STEP_COUNT_MAX as int) * (SCALE as int) == 1_000_000_000_000int)
            by (nonlinear_arith);
        lemma_tdiv_scaled_bound((t as int) * (nn as int), SCALE as int, STEP_COUNT_MAX as int);
        vstd::arithmetic::div_mod::lemma_div_pos_is_pos((t as int) * (nn as int), SCALE as int);
    }
    let base: i64 = tdiv128((t as i128) * (nn as i128), SCALE as i128) as i64;
    let num: i64 = base + (if initial_single { 1 } else { 0 });
    let den: i64 = nn + (if initial_single { 1 } else { 0 }) + (if final_single { 1 } else { 0 });
    proof {
        lemma_abs_mul_bound(num as int, SCALE as int, (STEP_COUNT_MAX + 1) as int, SCALE as int);
        vstd::arithmetic::mul::lemma_mul_nonnegative(num as int, SCALE as int);
        lemma_tdiv_bound((num as int) * (SCALE as int), den as int, 1_000_001_000_000int);
        assert(((STEP_COUNT_MAX + 1) as int) * (SCALE as int) == 1_000_001_000_000int)
            by (nonlinear_arith);
    }
    let r: i64 = tdiv128((num as i128) * (SCALE as i128), den as i128) as i64;
    r
}

/// The three-point-cubic formula on machine integers.
fn three_point_cubic_at(tpc: &ThreePointCubic, t: i64) -> (r: i64)
    requires
        tpc.wf(),
        0 <= t <= SCALE,
    ensures
        r == three_point_cubic_val(*tpc, t as int),
{
    if t < tpc.mid_x {
        let s = segment_time(t, tpc.mid_x);
        let y = cubic_transform(&tpc.first, s);
        fx_mul64(y, tpc.mid_y)
    } else {
        let s = segment_time(t - tpc.mid_x, SCALE - tpc.mid_x);
        let y = cubic_transform(&tpc.second, s);
        let scaled = fx_mul64(y, SCALE - tpc.mid_y);
        proof {
            lemma_abs_mul_bound(
                y as int,
                (SCALE - tpc.mid_y) as int,
                10 * (CUBIC_PARAM_MAX as int),
                SCALE as int,
            );
            assert(10 * (CUBIC_PARAM_MAX as int) * (SCALE as int)
                == 10_000_000_000_000_000int) by (nonlinear_arith);
            assert(10_000_000_000int * (SCALE as int) == 10_000_000_000_000_000int)
                by (nonlinear_arith);
            lemma_tdiv_scaled_bound(
                (y as int) * ((SCALE - tpc.mid_y) as int),
                SCALE as int,
                10_000_000_000int,
            );
        }
        scaled + tpc.mid_y
    }
}

/// A time remapped into a segment's local unit range: `t / span`, which
/// stays within the unit range whenever `t` does not exceed the span.
fn segment_time(t: i64, span: i64) -> (r: i64)
    requires
        0 <= t <= span,
        SCALE / 100 <= span <= SCALE,
    ensures
        r == fx_div(t as int, span as int),
        0 <= r <= SCALE,
{
    let r = fx_div64(t, span);
    proof {
        vstd::arithmetic::mul::lemma_mul_inequality(t as int, span as int, SCALE as int);
        vstd::arithmetic::mul::lemma_mul_is_commutative(t as int, SCALE as int);
        vstd::arithmetic::mul::lemma_mul_is_commutative(span as int, SCALE as int);
        vstd::arithmetic::mul::lemma_mul_nonnegative(t as int, SCALE as int);
        lemma_tdiv_scaled_bound((t as int) * (SCALE as int), span as int, SCALE as int);
        vstd::arithmetic::div_mod::lemma_div_pos_is_pos((t as int) * (SCALE as int), span as int);
    }
    r
}

/// The uniform evaluation contract of every curve: a pure map from a
/// normalized time to an eased progress.
pub trait ICurve: Sized {
    /// When evaluation is defined for this curve.
    spec fn curve_wf(&self) -> bool;

    /// The progress this curve yields at time `t`.
    spec fn curve_value(&self, t: int) -> int;

    /// Evaluates the curve: exact boundary values at `t == 0` and
    /// `t == SCALE`, the variant's formula in between.
    fn transform(&self, t: i64) -> (r: i64)
        requires
            self.curve_wf(),
            0 <= t <= SCALE,
        ensures
            r == self.curve_value(t as int),
    ;
}

impl ICurve for Curve {
    open spec fn curve_wf(&self) -> bool {
        self.wf()
    }

    open spec fn curve_value(&self, t: int) -> int {
        self.value_at(t)
    }

    fn transform(&self, t: i64) -> (r: i64) {
        if t == 0 {
            return 0;
        }
        if t == SCALE {
            return SCALE;
        }
        match self {
            Curve::Instant => SCALE,
            Curve::Linear => t,
            Curve::Cubic(cc) => cubic_transform(cc, t),
            Curve::ThreePointCubic(tpc) => three_point_cubic_at(tpc, t),
            Curve::Threshold(th) => if t < *th {
                0
            } else {
                SCALE
            },
            Curve::SawTooth(count) => saw_tooth_at(*count, t),
            Curve::BounceIn => bounce_in64(t),
            Curve::BounceOut => bounce_out64(t),
            Curve::BounceInOut => bounce_in_out64(t),
            Curve::ElasticIn(p) => elastic_in64(*p, t),
            Curve::ElasticOut(p) => elastic_out64(*p, t),
            Curve::ElasticInOut(p) => elastic_in_out64(*p, t),
            Curve::Decelerate => decelerate_at(t),
            Curve::Stepped(n, i, f) => stepped_at(*n, *i, *f, t),
        }
    }
}

/// Every curve yields exactly `0` at time `0` and exactly `SCALE` at time
/// `SCALE`, whatever its variant and parameters.
pub proof fn lemma_boundary_exact(c: Curve)
    ensures
        c.value_at(0) == 0,
        c.value_at(SCALE as int) == SCALE,
{
}

/// The linear curve is the identity on the whole unit interval.
pub proof fn lemma_linear_identity(t: int)
    requires
        0 <= t <= SCALE,
    ensures
        Curve::Linear.value_at(t) == t,
{
}

/// A cubic whose control points sit on the corners is identity-equivalent:
/// its value never exceeds the time and trails it by at most three
/// millionths, on the whole unit interval.
pub proof fn lemma_identity_cubic_reduces_to_linear(t: int)
    requires
        0 <= t <= SCALE,
    ensures
        Curve::Cubic(cubic::identity_cubic()).value_at(t) <= t,
        t - Curve::Cubic(cubic::identity_cubic()).value_at(t) <= 3,
{
    if 1 <= t <= SCALE - 1 {
        cubic::lemma_identity_cubic_is_linear(t);
    }
}

} // verus!
