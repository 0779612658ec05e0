//! The fixed, physically-inspired curve formulas: bounce (piecewise
//! quadratic) and elastic (damped sine oscillation), together with the
//! fixed-point sine and power-of-two approximations the elastic family
//! needs.

use vstd::prelude::*;
use crate::fixed::{
    SCALE, FX_MAX, tdiv, fx_mul, fx_mul64, lemma_abs_mul_bound, lemma_tdiv_bound,
    lemma_tdiv_scaled_bound, tdiv128,
};

verus! {

/// A full turn (two pi) in fixed-point form.
pub const TAU_FX: i64 = 6_283_185;

/// Half a turn (pi) in fixed-point form.
pub const PI_FX: i64 = 3_141_592;

/// Pi squared in fixed-point form.
pub const PI_SQ_FX: i64 = 9_869_604;

// ---------------------------------------------------------------------------
// Bounce: a decaying train of parabolic arcs. The arc boundaries are the
// elevenths of the unit interval and the arc heights are 3/4, 15/16 and
// 63/64, with the shared quadratic coefficient 121/16.
// ---------------------------------------------------------------------------

/// One quadratic arc term: `121 * d^2 / 16`, in fixed-point form.
pub open spec fn bounce_arc(d: int) -> int {
    tdiv(121 * d * d, 16 * (SCALE as int))
}

/// The bounce-out shape: four parabolic arcs of decaying height.
pub open spec fn bounce_out_val(t: int) -> int {
    if t < 363_636 {
        bounce_arc(t)
    } else if t < 727_272 {
        bounce_arc(t - 545_454) + 750_000
    } else if t < 909_090 {
        bounce_arc(t - 818_181) + 937_500
    } else {
        bounce_arc(t - 954_545) + 984_375
    }
}

/// Bounce-in is the time-reverse of bounce-out.
pub open spec fn bounce_in_val(t: int) -> int {
    SCALE - bounce_out_val(SCALE - t)
}

/// Bounce-in on the first half, bounce-out on the second, each remapped
/// to fill its half.
pub open spec fn bounce_in_out_val(t: int) -> int {
    if 2 * t < SCALE {
        tdiv(SCALE - bounce_out_val(SCALE - 2 * t), 2)
    } else {
        tdiv(bounce_out_val(2 * t - SCALE), 2) + 500_000
    }
}

/// One quadratic arc on machine integers.
fn bounce_arc64(d: i64) -> (r: i64)
    requires
        -SCALE <= d <= SCALE,
    ensures
        r == bounce_arc(d as int),
        0 <= r <= 8 * SCALE,
{
    proof {
        lemma_abs_mul_bound(d as int, d as int, SCALE as int, SCALE as int);
        assert(0 <= (d as int) * (d as int)) by (nonlinear_arith);
    }
    let sq: i128 = (d as i128) * (d as i128);
    let n: i128 = 121 * sq;
    let q = tdiv128(n, 16 * (SCALE as i128));
    proof {
        assert(121 * (d as int) * (d as int) == 121 * ((d as int) * (d as int)))
            by (nonlinear_arith);
        assert(8_000_000int * (16 * (SCALE as int)) == 128_000_000_000_000int);
        lemma_tdiv_scaled_bound(n as int, 16 * (SCALE as int), 8_000_000int);
        vstd::arithmetic::div_mod::lemma_div_pos_is_pos(n as int, 16 * (SCALE as int));
    }
    q as i64
}

/// The bounce-out formula on machine integers.
pub fn bounce_out64(t: i64) -> (r: i64)
    requires
        0 <= t <= SCALE,
    ensures
        r == bounce_out_val(t as int),
        0 <= r <= 9 * SCALE,
{
    if t < 363_636 {
        bounce_arc64(t)
    } else if t < 727_272 {
        bounce_arc64(t - 545_454) + 750_000
    } else if t < 909_090 {
        bounce_arc64(t - 818_181) + 937_500
    } else {
        bounce_arc64(t - 954_545) + 984_375
    }
}

/// The bounce-in formula on machine integers.
pub fn bounce_in64(t: i64) -> (r: i64)
    requires
        0 <= t <= SCALE,
    ensures
        r == bounce_in_val(t as int),
{
    let b = bounce_out64(SCALE - t);
    SCALE - b
}

/// The bounce-in-out formula on machine integers.
pub fn bounce_in_out64(t: i64) -> (r: i64)
    requires
        0 <= t <= SCALE,
    ensures
        r == bounce_in_out_val(t as int),
{
    if 2 * t < SCALE {
        let b = bounce_out64(SCALE - 2 * t);
        let h = tdiv128((SCALE - b) as i128, 2);
        h as i64
    } else {
        let b = bounce_out64(2 * t - SCALE);
        let h = tdiv128(b as i128, 2);
        (h as i64) + 500_000
    }
}

// ---------------------------------------------------------------------------
// Sine: range reduction to one turn, then the rational (Bhaskara)
// approximation `16 u (pi - u) / (5 pi^2 - 4 u (pi - u))` on each half turn.
// ---------------------------------------------------------------------------

/// The Bhaskara approximation on the first half turn, `u` in `[0, PI_FX]`.
pub open spec fn sin_half(u: int) -> int {
    let v = tdiv(u * (PI_FX - u), SCALE as int);
    tdiv(16 * v * (SCALE as int), 5 * (PI_SQ_FX as int) - 4 * v)
}

/// Fixed-point sine of an angle in radians (any magnitude): reduce modulo
/// a full turn, then apply the half-turn approximation with sign.
pub open spec fn sin_fx(x: int) -> int {
    let r = x % (TAU_FX as int);
    if r < PI_FX {
        sin_half(r)
    } else {
        -sin_half(r - PI_FX)
    }
}

/// Euclidean remainder on machine integers: the result is in `[0, m)`.
pub fn emod64(x: i64, m: i64) -> (r: i64)
    requires
        0 < m,
        i64::MIN < x,
    ensures
        r == (x as int) % (m as int),
        0 <= r < m,
{
    if x >= 0 {
        x % m
    } else {
        let k = (-x) % m;
        proof {
            vstd::arithmetic::div_mod::lemma_fundamental_div_mod(-(x as int), m as int);
        }
        if k == 0 {
            proof {
                let q = -(x as int) / (m as int);
                assert((x as int) == (-q) * (m as int) + 0) by (nonlinear_arith)
                    requires
                        -(x as int) == (m as int) * q,
                ;
                vstd::arithmetic::div_mod::lemma_fundamental_div_mod_converse(
                    x as int, m as int, -q, 0);
            }
            0
        } else {
            proof {
                let q = -(x as int) / (m as int);
                let kk = (-(x as int)) % (m as int);
                assert((x as int) == (-q - 1) * (m as int) + ((m as int) - kk))
                    by (nonlinear_arith)
                    requires
                        -(x as int) == (m as int) * q + kk,
                ;
                vstd::arithmetic::div_mod::lemma_fundamental_div_mod_converse(
                    x as int, m as int, -q - 1, (m as int) - kk);
            }
            m - k
        }
    }
}

/// The half-turn sine approximation on machine integers.
fn sin_half64(u: i64) -> (r: i64)
    requires
        0 <= u <= PI_FX,
    ensures
        r == sin_half(u as int),
        0 <= r <= 1_100_000,
{
    let w: i64 = PI_FX - u;
    proof {
        assert(4 * ((u as int) * (w as int)) <= (PI_FX as int) * (PI_FX as int))
            by (nonlinear_arith)
            requires
                0 <= u,
                0 <= w,
                u + w == PI_FX,
        ;
        assert((PI_FX as int) * (PI_FX as int) == 9_869_600_294_464int) by (nonlinear_arith);
        assert(2_467_401int * (SCALE as int) == 2_467_401_000_000int);
        lemma_tdiv_scaled_bound((u as int) * (w as int), SCALE as int, 2_467_401int);
        vstd::arithmetic::mul::lemma_mul_nonnegative(u as int, w as int);
        vstd::arithmetic::div_mod::lemma_div_pos_is_pos((u as int) * (w as int), SCALE as int);
    }
    let prod: i128 = (u as i128) * (w as i128);
    let v: i64 = tdiv128(prod, SCALE as i128) as i64;
    let num: i128 = 16 * (v as i128) * (SCALE as i128);
    let den: i64 = 5 * PI_SQ_FX - 4 * v;
    proof {
        assert(16 * (v as int) * (SCALE as int) <= 1_100_000int * (den as int))
            by (nonlinear_arith)
            requires
                0 <= v <= 2_467_401,
                den == 5 * (PI_SQ_FX as int) - 4 * (v as int),
                PI_SQ_FX == 9_869_604,
                SCALE == 1_000_000,
        ;
        assert(16 * (v as int) * (SCALE as int) >= 0) by (nonlinear_arith)
            requires
                0 <= v,
                SCALE == 1_000_000,
        ;
        lemma_tdiv_scaled_bound(16 * (v as int) * (SCALE as int), den as int, 1_100_000int);
        vstd::arithmetic::div_mod::lemma_div_pos_is_pos(
            16 * (v as int) * (SCALE as int), den as int);
    }
    let r = tdiv128(num, den as i128);
    r as i64
}

/// Fixed-point sine on machine integers.
pub fn sin_fx64(x: i64) -> (r: i64)
    requires
        i64::MIN < x,
    ensures
        r == sin_fx(x as int),
        -1_100_000 <= r <= 1_100_000,
{
    let red = emod64(x, TAU_FX);
    if red < PI_FX {
        sin_half64(red)
    } else {
        let s = sin_half64(red - PI_FX);
        -s
    }
}

// ---------------------------------------------------------------------------
// Powers of two: `2^(-e/SCALE)` for a nonnegative fixed-point exponent `e`,
// split into an integer halving count and a quadratic approximation of the
// fractional part.
// ---------------------------------------------------------------------------

/// Integer halvings: `v / 2^k`, truncating at each step.
pub open spec fn halve(v: int, k: nat) -> int
    decreases k,
{
    if k == 0 {
        v
    } else {
        halve(v, (k - 1) as nat) / 2
    }
}

/// Quadratic approximation of `2^(-f/SCALE)` for a fractional `f` in
/// `[0, SCALE)`: `1 - 0.671573 f + 0.171573 f^2`.
pub open spec fn pow_frac(f: int) -> int {
    SCALE - tdiv(671_573 * f, SCALE as int) + tdiv(171_573 * tdiv(f * f, SCALE as int), SCALE as int)
}

/// `2^(-e/SCALE)` for a nonnegative fixed-point exponent `e`.
pub open spec fn pow2_neg(e: int) -> int {
    halve(pow_frac(e % (SCALE as int)), (e / (SCALE as int)) as nat)
}

/// The fractional-part approximation on machine integers; the result
/// stays within `[0, SCALE]`.
fn pow_frac64(f: i64) -> (r: i64)
    requires
        0 <= f < SCALE,
    ensures
        r == pow_frac(f as int),
        0 <= r <= SCALE,
{
    let t1: i64 = (671_573 * f) / SCALE;
    proof {
        lemma_abs_mul_bound(f as int, f as int, SCALE as int, SCALE as int);
        lemma_tdiv_scaled_bound((f as int) * (f as int), SCALE as int, SCALE as int);
        vstd::arithmetic::div_mod::lemma_div_pos_is_pos((f as int) * (f as int), SCALE as int);
    }
    let f2: i64 = (((f as i128) * (f as i128)) / (SCALE as i128)) as i64;
    let t2: i64 = (171_573 * f2) / SCALE;
    proof {
        // f2 <= f, so the quadratic term cannot exceed the linear one.
        vstd::arithmetic::mul::lemma_mul_inequality(f as int, SCALE as int, f as int);
        vstd::arithmetic::mul::lemma_mul_is_commutative(f as int, SCALE as int);
        vstd::arithmetic::div_mod::lemma_div_is_ordered(
            (f as int) * (f as int), (SCALE as int) * (f as int), SCALE as int);
        vstd::arithmetic::div_mod::lemma_div_multiples_vanish(f as int, SCALE as int);
        assert(f2 <= f);
        vstd::arithmetic::mul::lemma_mul_inequality(f2 as int, f as int, 171_573int);
        vstd::arithmetic::mul::lemma_mul_is_commutative(f2 as int, 171_573int);
        vstd::arithmetic::mul::lemma_mul_is_commutative(f as int, 171_573int);
        vstd::arithmetic::mul::lemma_mul_inequality(171_573int, 671_573int, f as int);
        vstd::arithmetic::mul::lemma_mul_is_commutative(f as int, 671_573int);
        vstd::arithmetic::div_mod::lemma_div_is_ordered(
            171_573 * (f as int), 671_573 * (f as int), SCALE as int);
        vstd::arithmetic::div_mod::lemma_div_is_ordered(
            171_573 * (f2 as int), 171_573 * (f as int), SCALE as int);
        vstd::arithmetic::div_mod::lemma_div_pos_is_pos(171_573 * (f2 as int), SCALE as int);
        vstd::arithmetic::div_mod::lemma_div_pos_is_pos(671_573 * (f as int), SCALE as int);
        lemma_tdiv_scaled_bound(671_573 * (f as int), SCALE as int, 671_573int);
    }
    SCALE - t1 + t2
}

/// `2^(-e/SCALE)` on machine integers; the result stays within `[0, SCALE]`.
pub fn pow2_neg64(e: i64) -> (r: i64)
    requires
        0 <= e <= 20 * SCALE,
    ensures
        r == pow2_neg(e as int),
        0 <= r <= SCALE,
{
    let k: i64 = e / SCALE;
    let f: i64 = e % SCALE;
    let base = pow_frac64(f);
    let mut r = base;
    let mut j: i64 = 0;
    while j < k
        invariant
            0 <= j <= k <= 20,
            0 <= r <= SCALE,
            r == halve(base as int, j as nat),
        decreases k - j,
    {
        r = r / 2;
        j = j + 1;
    }
    r
}

// ---------------------------------------------------------------------------
// Elastic: a damped sine oscillation with a configurable period. `In` is
// the time-reverse of `Out`; `InOut` splits at the midpoint.
// ---------------------------------------------------------------------------

/// The oscillation angle `(u - period/4) * tau / period`.
pub open spec fn elastic_angle(p: int, u: int) -> int {
    tdiv((u - p / 4) * (TAU_FX as int), p)
}

/// Elastic-in: a growing oscillation that ends by springing to the target.
pub open spec fn elastic_in_val(p: int, t: int) -> int {
    let u = t - SCALE;
    -fx_mul(pow2_neg(-10 * u), sin_fx(elastic_angle(p, u)))
}

/// Elastic-out: an oscillation that decays from an initial overshoot.
pub open spec fn elastic_out_val(p: int, t: int) -> int {
    fx_mul(pow2_neg(10 * t), sin_fx(elastic_angle(p, t))) + SCALE
}

/// Elastic-in on the first half, elastic-out on the second.
pub open spec fn elastic_in_out_val(p: int, t: int) -> int {
    let u = 2 * t - SCALE;
    if u < 0 {
        -tdiv(fx_mul(pow2_neg(-10 * u), sin_fx(elastic_angle(p, u))), 2)
    } else {
        tdiv(fx_mul(pow2_neg(10 * u), sin_fx(elastic_angle(p, u))), 2) + SCALE
    }
}

/// The oscillation angle on machine integers.
fn elastic_angle64(p: i64, u: i64) -> (r: i64)
    requires
        SCALE / 100 <= p <= 10 * SCALE,
        -2 * SCALE <= u <= 2 * SCALE,
    ensures
        r == elastic_angle(p as int, u as int),
{
    let s: i64 = p / 4;
    proof {
        lemma_abs_mul_bound((u - s) as int, TAU_FX as int, 5 * SCALE as int, TAU_FX as int);
        lemma_tdiv_bound(((u - s) as int) * (TAU_FX as int), p as int, 31_415_925_000_000int);
    }
    let n: i128 = ((u - s) as i128) * (TAU_FX as i128);
    let r = tdiv128(n, p as i128);
    r as i64
}

/// The damped oscillation magnitude `2^(-e/SCALE) * sin(angle)`, the common
/// core of the three elastic formulas.
fn elastic_core64(p: i64, u: i64, e: i64) -> (r: i64)
    requires
        SCALE / 100 <= p <= 10 * SCALE,
        -2 * SCALE <= u <= 2 * SCALE,
        0 <= e <= 20 * SCALE,
    ensures
        r == fx_mul(pow2_neg(e as int), sin_fx(elastic_angle(p as int, u as int))),
        -2 * SCALE <= r <= 2 * SCALE,
{
    let m = pow2_neg64(e);
    let ang = elastic_angle64(p, u);
    let s = sin_fx64(ang);
    let prod = fx_mul64(m, s);
    proof {
        lemma_abs_mul_bound(m as int, s as int, SCALE as int, 1_100_000int);
        assert(1_100_000int * (SCALE as int) == 1_100_000_000_000int);
        assert(2_000_000int * (SCALE as int) == 2_000_000_000_000int);
        lemma_tdiv_scaled_bound((m as int) * (s as int), SCALE as int, 2_000_000int);
    }
    prod
}

/// The elastic-in formula on machine integers.
pub fn elastic_in64(p: i64, t: i64) -> (r: i64)
    requires
        SCALE / 100 <= p <= 10 * SCALE,
        0 <= t <= SCALE,
    ensures
        r == elastic_in_val(p as int, t as int),
{
    let u = t - SCALE;
    let e = 10 * (SCALE - t);
    let c = elastic_core64(p, u, e);
    -c
}

/// The elastic-out formula on machine integers.
pub fn elastic_out64(p: i64, t: i64) -> (r: i64)
    requires
        SCALE / 100 <= p <= 10 * SCALE,
        0 <= t <= SCALE,
    ensures
        r == elastic_out_val(p as int, t as int),
{
    let c = elastic_core64(p, t, 10 * t);
    c + SCALE
}

/// The elastic-in-out formula on machine integers.
pub fn elastic_in_out64(p: i64, t: i64) -> (r: i64)
    requires
        SCALE / 100 <= p <= 10 * SCALE,
        0 <= t <= SCALE,
    ensures
        r == elastic_in_out_val(p as int, t as int),
{
    let u = 2 * t - SCALE;
    if u < 0 {
        let e = 10 * (SCALE - 2 * t);
        let c = elastic_core64(p, u, e);
        let h = tdiv128(c as i128, 2);
        -(h as i64)
    } else {
        let c = elastic_core64(p, u, 10 * u);
        let h = tdiv128(c as i128, 2);
        (h as i64) + SCALE
    }
}

} // verus!
