//! Cubic Bézier easing segments.
//!
//! A unit Bézier runs from (0, 0) to (1, 1) with interior control points
//! (a, b) and (c, d); its horizontal axis is time and its vertical axis is
//! progress. Evaluating the ease at a time `t` means finding a parameter `s`
//! whose horizontal coordinate is `t` and returning the vertical coordinate
//! at `s`. The parameter is found by bisection: both axes use the same
//! polynomial, so one bracketing argument serves both.

use vstd::prelude::*;
use crate::fixed::{SCALE, tdiv, lemma_abs_mul_bound, lemma_tdiv_scaled_bound, tdiv128};

verus! {

/// `SCALE` cubed, the divisor that rescales a triple product.
pub const SCALE_CUBED: i64 = 1_000_000_000_000_000_000;

/// The largest magnitude a control coordinate may take (1000 units).
pub const CUBIC_PARAM_MAX: i64 = 1_000_000_000;

/// Number of bisection halvings; 2^20 exceeds `SCALE`, so the final
/// bracket is at most one fixed-point unit wide.
pub const BISECT_STEPS: u32 = 20;

/// One interior-control-point pair per axis: `(a, b)` and `(c, d)` of a
/// unit cubic Bézier, in fixed-point form.
#[derive(Clone, Copy, Debug, PartialEq, Eq, Structural)]
pub struct CubicCurve {
    pub a: i64,
    pub b: i64,
    pub c: i64,
    pub d: i64,
}

impl CubicCurve {
    /// Control coordinates stay small enough that every intermediate
    /// product of the axis polynomial fits in `i128`.
    pub open spec fn wf(self) -> bool {
        &&& -CUBIC_PARAM_MAX <= self.a <= CUBIC_PARAM_MAX
        &&& -CUBIC_PARAM_MAX <= self.b <= CUBIC_PARAM_MAX
        &&& -CUBIC_PARAM_MAX <= self.c <= CUBIC_PARAM_MAX
        &&& -CUBIC_PARAM_MAX <= self.d <= CUBIC_PARAM_MAX
    }
}

/// One axis of the unit Bézier at parameter `s`, with interior control
/// coordinates `p` and `q` on that axis:
/// `3*(1-s)^2*s*p + 3*(1-s)*s^2*q + s^3`, in fixed-point form.
pub open spec fn cubic_axis(p: int, q: int, s: int) -> int {
    tdiv(
        3 * (SCALE - s) * (SCALE - s) * s * p + 3 * (SCALE - s) * s * s * q + s * s * s * (
        SCALE as int),
        SCALE_CUBED as int,
    )
}

/// The bisection bracket after `n` halvings, starting from `[lo, hi]`:
/// each step keeps the half whose lower end still lies at or below `t`
/// on the horizontal axis.
pub open spec fn bisect(p: int, q: int, t: int, lo: int, hi: int, n: nat) -> int
    decreases n,
{
    if n == 0 {
        lo
    } else {
        let mid = (lo + hi) / 2;
        if cubic_axis(p, q, mid) <= t {
            bisect(p, q, t, mid, hi, (n - 1) as nat)
        } else {
            bisect(p, q, t, lo, mid, (n - 1) as nat)
        }
    }
}

/// The Bézier parameter chosen for the time `t`.
pub open spec fn cubic_param(p: int, q: int, t: int) -> int {
    bisect(p, q, t, 0, SCALE as int, BISECT_STEPS as nat)
}

/// The eased progress of the segment at time `t`: the vertical axis
/// evaluated at the parameter found for `t` on the horizontal axis.
pub open spec fn cubic_val(cc: CubicCurve, t: int) -> int {
    cubic_axis(cc.b as int, cc.d as int, cubic_param(cc.a as int, cc.c as int, t))
}

/// Evaluates one axis polynomial. The result is bounded by ten times the
/// control-coordinate bound.
pub fn cubic_axis64(p: i64, q: i64, s: i64) -> (r: i64)
    requires
        -CUBIC_PARAM_MAX <= p <= CUBIC_PARAM_MAX,
        -CUBIC_PARAM_MAX <= q <= CUBIC_PARAM_MAX,
        0 <= s <= SCALE,
    ensures
        r == cubic_axis(p as int, q as int, s as int),
        -10 * CUBIC_PARAM_MAX <= r <= 10 * CUBIC_PARAM_MAX,
{
    let u: i128 = (SCALE - s) as i128;
    let sv: i128 = s as i128;
    proof {
        let ui = u as int;
        let si = sv as int;
        assert(0 <= 3 * ui * ui <= 3_000_000_000_000int) by (nonlinear_arith)
            requires
                0 <= ui <= 1_000_000int,
        ;
        assert(0 <= 3 * ui * ui * si <= 3_000_000_000_000_000_000int) by (nonlinear_arith)
            requires
                0 <= 3 * ui * ui <= 3_000_000_000_000int,
                0 <= si <= 1_000_000int,
        ;
        lemma_abs_mul_bound(
            3 * ui * ui * si,
            p as int,
            3_000_000_000_000_000_000int,
            CUBIC_PARAM_MAX as int,
        );
        assert(0 <= 3 * ui * si <= 3_000_000_000_000int) by (nonlinear_arith)
            requires
                0 <= ui <= 1_000_000int,
                0 <= si <= 1_000_000int,
        ;
        assert(0 <= 3 * ui * si * si <= 3_000_000_000_000_000_000int) by (nonlinear_arith)
            requires
                0 <= 3 * ui * si <= 3_000_000_000_000int,
                0 <= si <= 1_000_000int,
        ;
        lemma_abs_mul_bound(
            3 * ui * si * si,
            q as int,
            3_000_000_000_000_000_000int,
            CUBIC_PARAM_MAX as int,
        );
        assert(3_000_000_000_000_000_000int * (CUBIC_PARAM_MAX as int)
            == 3_000_000_000_000_000_000_000_000_000int) by (nonlinear_arith);
        assert(0 <= si * si <= 1_000_000_000_000int) by (nonlinear_arith)
            requires
                0 <= si <= 1_000_000int,
        ;
        assert(0 <= si * si * si <= 1_000_000_000_000_000_000int) by (nonlinear_arith)
            requires
                0 <= si * si <= 1_000_000_000_000int,
                0 <= si <= 1_000_000int,
        ;
        assert(0 <= si * si * si * (SCALE as int) <= 1_000_000_000_000_000_000_000_000int)
            by (nonlinear_arith)
            requires
                0 <= si * si * si <= 1_000_000_000_000_000_000int,
                SCALE == 1_000_000,
        ;
    }
    let t1: i128 = 3 * u * u * sv * (p as i128);
    let t2: i128 = 3 * u * sv * sv * (q as i128);
    let t3: i128 = sv * sv * sv * (SCALE as i128);
    let n: i128 = t1 + t2 + t3;
    let r = tdiv128(n, SCALE_CUBED as i128);
    proof {
        assert((10 * CUBIC_PARAM_MAX) as int * (SCALE_CUBED as int)
            == 10_000_000_000_000_000_000_000_000_000int) by (nonlinear_arith);
        lemma_tdiv_scaled_bound(n as int, SCALE_CUBED as int, (10 * CUBIC_PARAM_MAX) as int);
    }
    r as i64
}

/// The midpoint of a nonempty bracket stays inside it.
proof fn lemma_mid_in_bracket(lo: int, hi: int)
    requires
        0 <= lo <= hi,
    ensures
        lo <= (lo + hi) / 2 <= hi,
{
    assert(lo <= (lo + hi) / 2 <= hi) by (nonlinear_arith)
        requires
            0 <= lo <= hi,
    ;
}

/// Evaluates the segment at time `t` by bisecting for the parameter and
/// reading the vertical axis there.
pub fn cubic_transform(cc: &CubicCurve, t: i64) -> (r: i64)
    requires
        cc.wf(),
        0 <= t <= SCALE,
    ensures
        r == cubic_val(*cc, t as int),
        -10 * CUBIC_PARAM_MAX <= r <= 10 * CUBIC_PARAM_MAX,
{
    let p = cc.a;
    let q = cc.c;
    let mut lo: i64 = 0;
    let mut hi: i64 = SCALE;
    let mut i: u32 = 0;
    while i < BISECT_STEPS
        invariant
            0 <= i <= BISECT_STEPS,
            0 <= lo <= hi <= SCALE,
            cc.wf(),
            0 <= t <= SCALE,
            p == cc.a,
            q == cc.c,
            bisect(p as int, q as int, t as int, lo as int, hi as int, (BISECT_STEPS - i) as nat)
                == cubic_param(p as int, q as int, t as int),
        decreases BISECT_STEPS - i,
    {
        proof {
            lemma_mid_in_bracket(lo as int, hi as int);
        }
        let mid: i64 = (lo + hi) / 2;
        let xm = cubic_axis64(p, q, mid);
        if xm <= t {
            lo = mid;
        } else {
            hi = mid;
        }
        i = i + 1;
    }
    let r = cubic_axis64(cc.b, cc.d, lo);
    r
}

// ---------------------------------------------------------------------------
// How close the bisection gets: the bracket keeps `t` between the
// horizontal axis at its two ends, and each halving shrinks its width.
// For the identity segment (control points at the corners) both axes are
// the same polynomial, so the returned progress is the time itself up to
// a few fixed-point units.
// ---------------------------------------------------------------------------

/// The width of a bracket after `n` halvings of a bracket of width `w`:
/// each step leaves at most `(w + 1) / 2`.
pub open spec fn shrink(w: int, n: nat) -> int
    decreases n,
{
    if n == 0 {
        w
    } else {
        shrink((w + 1) / 2, (n - 1) as nat)
    }
}

/// Shrinking is monotone in the starting width.
proof fn lemma_shrink_mono(w1: int, w2: int, n: nat)
    requires
        w1 <= w2,
    ensures
        shrink(w1, n) <= shrink(w2, n),
    decreases n,
{
    if n > 0 {
        vstd::arithmetic::div_mod::lemma_div_is_ordered(w1 + 1, w2 + 1, 2);
        lemma_shrink_mono((w1 + 1) / 2, (w2 + 1) / 2, (n - 1) as nat);
    }
}

/// A bracket `[r, h]` of width at most `w` inside `[.., hi]` whose ends
/// pin `t` between the horizontal-axis values.
pub open spec fn bracketed(p: int, q: int, t: int, r: int, h: int, hi: int, w: int) -> bool {
    &&& r <= h <= hi
    &&& h - r <= w
    &&& cubic_axis(p, q, r) <= t
    &&& t < cubic_axis(p, q, h)
}

/// The bisection keeps `t` bracketed: it returns a point at or below `t`
/// on the horizontal axis, with a point at most `shrink(hi - lo, n)`
/// above it that is already beyond `t`.
proof fn lemma_bisect_bracket(p: int, q: int, t: int, lo: int, hi: int, n: nat)
    requires
        0 <= lo <= hi,
        cubic_axis(p, q, lo) <= t,
        t < cubic_axis(p, q, hi),
    ensures
        lo <= bisect(p, q, t, lo, hi, n) <= hi,
        exists|h: int|
            #[trigger] bracketed(p, q, t, bisect(p, q, t, lo, hi, n), h, hi, shrink(hi - lo, n)),
    decreases n,
{
    let r = bisect(p, q, t, lo, hi, n);
    if n == 0 {
        assert(bracketed(p, q, t, r, hi, hi, shrink(hi - lo, 0)));
    } else {
        let mid = (lo + hi) / 2;
        lemma_mid_in_bracket(lo, hi);
        vstd::arithmetic::div_mod::lemma_fundamental_div_mod(lo + hi, 2);
        // 2 * (hi - mid) <= hi - lo + 1 and 2 * (mid - lo) <= hi - lo + 1.
        if cubic_axis(p, q, mid) <= t {
            lemma_bisect_bracket(p, q, t, mid, hi, (n - 1) as nat);
            let h0 = choose|h: int|
                #[trigger] bracketed(
                    p, q, t, bisect(p, q, t, mid, hi, (n - 1) as nat), h, hi,
                    shrink(hi - mid, (n - 1) as nat),
                );
            vstd::arithmetic::div_mod::lemma_div_is_ordered(2 * (hi - mid), hi - lo + 1, 2);
            vstd::arithmetic::div_mod::lemma_div_multiples_vanish(hi - mid, 2);
            lemma_shrink_mono(hi - mid, (hi - lo + 1) / 2, (n - 1) as nat);
            assert(bracketed(p, q, t, r, h0, hi, shrink(hi - lo, n)));
        } else {
            lemma_bisect_bracket(p, q, t, lo, mid, (n - 1) as nat);
            let h0 = choose|h: int|
                #[trigger] bracketed(
                    p, q, t, bisect(p, q, t, lo, mid, (n - 1) as nat), h, mid,
                    shrink(mid - lo, (n - 1) as nat),
                );
            vstd::arithmetic::div_mod::lemma_div_is_ordered(2 * (mid - lo), hi - lo + 1, 2);
            vstd::arithmetic::div_mod::lemma_div_multiples_vanish(mid - lo, 2);
            lemma_shrink_mono(mid - lo, (hi - lo + 1) / 2, (n - 1) as nat);
            assert(bracketed(p, q, t, r, h0, hi, shrink(hi - lo, n)));
        }
    }
}

/// After twenty halvings a unit-wide bracket remains.
proof fn lemma_shrink_unit()
    ensures
        shrink(SCALE as int, BISECT_STEPS as nat) == 1,
{
    reveal_with_fuel(shrink, 25);
}

/// Every horizontal axis starts at `0` and ends at `SCALE`, whatever its
/// control coordinates: the corner terms do not depend on them.
proof fn lemma_axis_ends(p: int, q: int)
    ensures
        cubic_axis(p, q, 0) == 0,
        cubic_axis(p, q, SCALE as int) == SCALE,
{
    let sc = SCALE as int;
    assert(3 * (sc - 0) * (sc - 0) * 0 * p == 0 && 3 * (sc - 0) * 0 * 0 * q == 0 && 0 * 0 * 0 * sc
        == 0) by (nonlinear_arith);
    assert(tdiv(0, SCALE_CUBED as int) == 0);
    assert(3 * (sc - sc) * (sc - sc) * sc * p == 0 && 3 * (sc - sc) * sc * sc * q == 0)
        by (nonlinear_arith);
    assert(sc * sc * sc * sc == 1_000_000_000_000_000_000_000_000int) by (nonlinear_arith)
        requires
            sc == 1_000_000,
    ;
    assert(1_000_000_000_000_000_000_000_000int / (SCALE_CUBED as int) == 1_000_000int);
}

/// The precision of the solver: for any cubic segment and any interior
/// time, the chosen parameter maps at or below `t` on the horizontal
/// axis, while the parameter one unit above it already maps beyond `t`.
pub proof fn lemma_cubic_param_brackets(cc: CubicCurve, t: int)
    requires
        0 <= t < SCALE,
    ensures
        exists|h: int|
            #[trigger] bracketed(
                cc.a as int, cc.c as int, t, cubic_param(cc.a as int, cc.c as int, t), h,
                SCALE as int, 1,
            ),
{
    lemma_axis_ends(cc.a as int, cc.c as int);
    lemma_bisect_bracket(cc.a as int, cc.c as int, t, 0, SCALE as int, BISECT_STEPS as nat);
    lemma_shrink_unit();
    let r = cubic_param(cc.a as int, cc.c as int, t);
    let h0 = choose|h: int|
        #[trigger] bracketed(
            cc.a as int, cc.c as int, t, r, h, SCALE as int,
            shrink(SCALE as int - 0, BISECT_STEPS as nat),
        );
    assert(bracketed(cc.a as int, cc.c as int, t, r, h0, SCALE as int, 1));
}

/// The identity segment's control points: both axes become the same
/// polynomial `s^2 * (3 - 2s)`.
pub open spec fn identity_cubic() -> CubicCurve {
    CubicCurve { a: 0, b: 0, c: SCALE, d: SCALE }
}

/// The identity axis climbs by at most 3 fixed-point units per parameter
/// unit.
proof fn lemma_identity_axis_step(s: int)
    requires
        0 <= s <= SCALE - 1,
    ensures
        cubic_axis(0, SCALE as int, s + 1) <= cubic_axis(0, SCALE as int, s) + 3,
{
    let sc = SCALE as int;
    let n0 = 3 * (sc - s) * (sc - s) * s * 0 + 3 * (sc - s) * s * s * sc + s * s * s * sc;
    let n1 = 3 * (sc - s - 1) * (sc - s - 1) * (s + 1) * 0 + 3 * (sc - s - 1) * (s + 1) * (s + 1)
        * sc + (s + 1) * (s + 1) * (s + 1) * sc;
    assert(0 <= n0 && 0 <= n1 && n1 <= n0 + 3 * (SCALE_CUBED as int)) by (nonlinear_arith)
        requires
            0 <= s <= sc - 1,
            sc == 1_000_000,
            SCALE_CUBED == 1_000_000_000_000_000_000,
            n0 == 3 * (sc - s) * (sc - s) * s * 0 + 3 * (sc - s) * s * s * sc + s * s * s * sc,
            n1 == 3 * (sc - s - 1) * (sc - s - 1) * (s + 1) * 0 + 3 * (sc - s - 1) * (s + 1) * (s
                + 1) * sc + (s + 1) * (s + 1) * (s + 1) * sc,
    ;
    let d = SCALE_CUBED as int;
    vstd::arithmetic::div_mod::lemma_div_is_ordered(n1, n0 + 3 * d, d);
    vstd::arithmetic::div_mod::lemma_div_plus_one(n0 + 2 * d, d);
    vstd::arithmetic::div_mod::lemma_div_plus_one(n0 + d, d);
    vstd::arithmetic::div_mod::lemma_div_plus_one(n0, d);
}

/// Control points at the corners reduce the cubic ease to the identity:
/// the eased progress never exceeds the time and trails it by at most 3
/// fixed-point units (three millionths), on the whole unit interval.
pub proof fn lemma_identity_cubic_is_linear(t: int)
    requires
        1 <= t <= SCALE - 1,
    ensures
        cubic_val(identity_cubic(), t) <= t,
        t - cubic_val(identity_cubic(), t) <= 3,
{
    let sc = SCALE as int;
    assert(cubic_axis(0, sc, 0) == 0 && cubic_axis(0, sc, sc) == sc) by (nonlinear_arith)
        requires
            sc == 1_000_000,
            SCALE_CUBED == 1_000_000_000_000_000_000,
    ;
    lemma_bisect_bracket(0, sc, t, 0, sc, BISECT_STEPS as nat);
    lemma_shrink_unit();
    let r = bisect(0, sc, t, 0, sc, BISECT_STEPS as nat);
    let h = choose|h: int| #[trigger] bracketed(0, sc, t, r, h, sc, 1);
    assert(h == r + 1);
    lemma_identity_axis_step(r);
}

} // verus!
