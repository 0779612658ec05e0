//! Fixed-point arithmetic over `i64`, scaled by `SCALE`.
//!
//! Every scalar of this library (a normalized time, an eased progress, a
//! shadow offset) is an `i64` that stands for the real number `v / SCALE`.
//! Division always truncates toward zero, so that a value and its negation
//! round symmetrically.

use vstd::prelude::*;

verus! {

/// One unit (the real number 1.0) in fixed-point form.
pub const SCALE: i64 = 1_000_000;

/// The largest magnitude a fixed-point scalar may take. Keeping scalars in
/// this range lets every product of two of them fit in `i128`, and every
/// rescaled product fit back in `i64`.
pub const FX_MAX: i64 = 1_000_000_000_000;

/// Truncating division (toward zero) of `n` by a positive `d`.
pub open spec fn tdiv(n: int, d: int) -> int {
    if n >= 0 {
        n / d
    } else {
        -((-n) / d)
    }
}

/// The product of two fixed-point scalars, rescaled: `a * b / SCALE`.
pub open spec fn fx_mul(a: int, b: int) -> int {
    tdiv(a * b, SCALE as int)
}

/// The quotient of two fixed-point scalars, rescaled: `a * SCALE / b`.
pub open spec fn fx_div(a: int, b: int) -> int {
    tdiv(a * SCALE, b)
}

/// The largest blend fraction magnitude: ten units beyond either end.
/// Overshooting curves (elastic, back-style cubics) hand the blend
/// fractions outside the unit interval, so the blend extrapolates on a
/// bounded domain rather than demanding the unit range.
pub const FRACTION_MAX: i64 = 10_000_000;

/// Linear interpolation from `a` to `b` by the fraction `x`:
/// `a + (b - a) * x / SCALE`, computed so that `x == 0` gives exactly `a`,
/// `x == SCALE` gives exactly `b`, and `a == b` gives exactly `a`.
/// Fractions outside `[0, SCALE]` extrapolate beyond the endpoints.
pub open spec fn lerp_fx(a: int, b: int, x: int) -> int {
    if b >= a {
        a + tdiv((b - a) * x, SCALE as int)
    } else {
        a - tdiv((a - b) * x, SCALE as int)
    }
}

/// The magnitude of a product is bounded by the product of the bounds.
pub proof fn lemma_abs_mul_bound(a: int, b: int, ba: int, bb: int)
    requires
        -ba <= a <= ba,
        -bb <= b <= bb,
        0 <= ba,
        0 <= bb,
    ensures
        -(ba * bb) <= a * b <= ba * bb,
{
    assert(-(ba * bb) <= a * b <= ba * bb) by (nonlinear_arith)
        requires
            -ba <= a <= ba,
            -bb <= b <= bb,
            0 <= ba,
            0 <= bb,
    ;
}

/// Truncating division keeps a magnitude bound of the numerator.
pub proof fn lemma_tdiv_bound(n: int, d: int, b: int)
    requires
        d > 0,
        -b <= n <= b,
        0 <= b,
    ensures
        -b <= tdiv(n, d) <= b,
{
    if n >= 0 {
        vstd::arithmetic::div_mod::lemma_div_nonincreasing(n, d);
        vstd::arithmetic::div_mod::lemma_div_pos_is_pos(n, d);
    } else {
        vstd::arithmetic::div_mod::lemma_div_nonincreasing(-n, d);
        vstd::arithmetic::div_mod::lemma_div_pos_is_pos(-n, d);
    }
}

/// Dividing a numerator no larger in magnitude than `b * d` by `d`
/// gives a quotient no larger in magnitude than `b`.
pub proof fn lemma_tdiv_scaled_bound(n: int, d: int, b: int)
    requires
        d > 0,
        0 <= b,
        -(b * d) <= n <= b * d,
    ensures
        -b <= tdiv(n, d) <= b,
{
    if n >= 0 {
        vstd::arithmetic::div_mod::lemma_div_is_ordered(n, b * d, d);
        vstd::arithmetic::div_mod::lemma_div_by_multiple(b, d);
        vstd::arithmetic::div_mod::lemma_div_pos_is_pos(n, d);
    } else {
        vstd::arithmetic::div_mod::lemma_div_is_ordered(-n, b * d, d);
        vstd::arithmetic::div_mod::lemma_div_by_multiple(b, d);
        vstd::arithmetic::div_mod::lemma_div_pos_is_pos(-n, d);
    }
}

/// Truncating division on machine integers; `d` must be positive.
pub fn tdiv128(n: i128, d: i128) -> (r: i128)
    requires
        d > 0,
        n > i128::MIN,
    ensures
        r == tdiv(n as int, d as int),
        n >= 0 ==> 0 <= r <= n,
        n < 0 ==> n <= r <= 0,
{
    if n >= 0 {
        proof {
            vstd::arithmetic::div_mod::lemma_div_nonincreasing(n as int, d as int);
            vstd::arithmetic::div_mod::lemma_div_pos_is_pos(n as int, d as int);
        }
        n / d
    } else {
        proof {
            vstd::arithmetic::div_mod::lemma_div_nonincreasing(-(n as int), d as int);
            vstd::arithmetic::div_mod::lemma_div_pos_is_pos(-(n as int), d as int);
        }
        -((-n) / d)
    }
}

/// Fixed-point product of two bounded scalars.
pub fn fx_mul64(a: i64, b: i64) -> (r: i64)
    requires
        -FX_MAX <= a <= FX_MAX,
        -FX_MAX <= b <= FX_MAX,
    ensures
        r == fx_mul(a as int, b as int),
{
    proof {
        lemma_abs_mul_bound(a as int, b as int, FX_MAX as int, FX_MAX as int);
        assert((FX_MAX as int) * (FX_MAX as int) == 1_000_000_000_000_000_000_000_000int) by (nonlinear_arith);
    }
    let p: i128 = (a as i128) * (b as i128);
    proof {
        assert(1_000_000_000_000_000_000int * (SCALE as int) == 1_000_000_000_000_000_000_000_000int) by (nonlinear_arith);
        lemma_tdiv_scaled_bound(p as int, SCALE as int, 1_000_000_000_000_000_000int);
    }
    let q = tdiv128(p, SCALE as i128);
    q as i64
}

/// Fixed-point quotient `a * SCALE / b` of two bounded scalars, `b` positive.
pub fn fx_div64(a: i64, b: i64) -> (r: i64)
    requires
        -FX_MAX <= a <= FX_MAX,
        0 < b,
    ensures
        r == fx_div(a as int, b as int),
{
    proof {
        lemma_abs_mul_bound(a as int, SCALE as int, FX_MAX as int, SCALE as int);
        assert((FX_MAX as int) * (SCALE as int) == 1_000_000_000_000_000_000int) by (nonlinear_arith);
    }
    let p: i128 = (a as i128) * (SCALE as i128);
    proof {
        lemma_tdiv_bound(p as int, b as int, 1_000_000_000_000_000_000int);
    }
    let q = tdiv128(p, b as i128);
    q as i64
}

/// Fixed-point linear interpolation with bounded extrapolation. For
/// fractions in the unit range the result lies between the endpoints;
/// interpolating a value with itself returns it unchanged for every
/// fraction.
pub fn lerp_fixed(a: i64, b: i64, x: i64) -> (r: i64)
    requires
        -FX_MAX <= a <= FX_MAX,
        -FX_MAX <= b <= FX_MAX,
        -FRACTION_MAX <= x <= FRACTION_MAX,
    ensures
        r == lerp_fx(a as int, b as int, x as int),
        0 <= x <= SCALE && a <= b ==> a <= r <= b,
        0 <= x <= SCALE && b <= a ==> b <= r <= a,
        a == b ==> r == a,
        x == 0 ==> r == a,
        x == SCALE ==> r == b,
{
    if b >= a {
        let d: i64 = b - a;
        proof {
            lemma_abs_mul_bound(d as int, x as int, 2 * FX_MAX as int, FRACTION_MAX as int);
            assert((2 * FX_MAX as int) * (FRACTION_MAX as int)
                == 20_000_000_000_000int * (SCALE as int)) by (nonlinear_arith);
            lemma_tdiv_scaled_bound((d as int) * (x as int), SCALE as int, 20_000_000_000_000int);
            if 0 <= x && x <= SCALE {
                lemma_lerp_step(d as int, x as int);
            }
            if d == 0 {
                assert((d as int) * (x as int) == 0) by (nonlinear_arith)
                    requires
                        d == 0,
                ;
                vstd::arithmetic::div_mod::lemma_div_of0(SCALE as int);
            }
        }
        let p: i128 = (d as i128) * (x as i128);
        let q: i64 = tdiv128(p, SCALE as i128) as i64;
        a + q
    } else {
        let d: i64 = a - b;
        proof {
            lemma_abs_mul_bound(d as int, x as int, 2 * FX_MAX as int, FRACTION_MAX as int);
            assert((2 * FX_MAX as int) * (FRACTION_MAX as int)
                == 20_000_000_000_000int * (SCALE as int)) by (nonlinear_arith);
            lemma_tdiv_scaled_bound((d as int) * (x as int), SCALE as int, 20_000_000_000_000int);
            if 0 <= x && x <= SCALE {
                lemma_lerp_step(d as int, x as int);
            }
        }
        let p: i128 = (d as i128) * (x as i128);
        let q: i64 = tdiv128(p, SCALE as i128) as i64;
        a - q
    }
}

/// For a nonnegative difference `d` and a fraction `x` in `[0, SCALE]`,
/// the rescaled product `d * x / SCALE` stays in `[0, d]`, is `0` when
/// `x == 0`, and is exactly `d` when `x == SCALE`.
proof fn lemma_lerp_step(d: int, x: int)
    requires
        0 <= d,
        0 <= x <= SCALE,
    ensures
        0 <= tdiv(d * x, SCALE as int) <= d,
        x == 0 ==> tdiv(d * x, SCALE as int) == 0,
        x == SCALE ==> tdiv(d * x, SCALE as int) == d,
        d == 0 ==> tdiv(d * x, SCALE as int) == 0,
{
    vstd::arithmetic::mul::lemma_mul_inequality(x, SCALE as int, d);
    vstd::arithmetic::mul::lemma_mul_is_commutative(x, d);
    vstd::arithmetic::mul::lemma_mul_is_commutative(SCALE as int, d);
    vstd::arithmetic::div_mod::lemma_div_is_ordered(d * x, d * SCALE, SCALE as int);
    vstd::arithmetic::div_mod::lemma_div_multiples_vanish(d, SCALE as int);
    vstd::arithmetic::mul::lemma_mul_nonnegative(d, x);
    vstd::arithmetic::div_mod::lemma_div_pos_is_pos(d * x, SCALE as int);
}

} // verus!
