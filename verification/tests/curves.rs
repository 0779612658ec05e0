use tweening::curves::{Curve, ICurve};
use tweening::fixed::SCALE;

fn all_sample_curves() -> Vec<Curve> {
    vec![
        Curve::Instant,
        Curve::linear(),
        Curve::cubic(250_000, 100_000, 250_000, 1_000_000),
        Curve::cubic(0, 0, 1_000_000, 1_000_000),
        Curve::cubic(600_000, -280_000, 735_000, 45_000),
        Curve::three_point_cubic(
            (56_000, 24_000),
            (108_000, 308_500),
            (198_000, 541_000),
            (365_500, 1_000_000),
            (546_500, 989_000),
        ),
        Curve::threshold(500_000),
        Curve::saw_tooth(2_000_000),
        Curve::bounce_in(),
        Curve::bounce_out(),
        Curve::bounce_in_out(),
        Curve::elastic_in(),
        Curve::elastic_out(),
        Curve::elastic_in_out(),
        Curve::decelerate(),
        Curve::stepped(4, false, false),
        Curve::stepped(4, true, false),
        Curve::stepped(4, false, true),
        Curve::stepped(4, true, true),
    ]
}

#[test]
fn boundaries_are_exact_for_every_variant() {
    for c in all_sample_curves() {
        assert_eq!(c.transform(0), 0);
        assert_eq!(c.transform(SCALE), SCALE);
    }
}

#[test]
fn linear_is_identity() {
    let c = Curve::linear();
    for t in [0, 1, 137, 250_000, 499_999, 500_000, 750_000, 999_999, 1_000_000] {
        assert_eq!(c.transform(t), t);
    }
}

#[test]
fn identity_cubic_reduces_to_linear_within_tolerance() {
    // Control points (0, 0) and (1, 1) make both Bezier axes the same
    // polynomial, so the ease is the identity up to solver tolerance.
    let c = Curve::cubic(0, 0, 1_000_000, 1_000_000);
    let mut t: i64 = 1;
    while t < SCALE {
        let r = c.transform(t);
        assert!((r - t).abs() <= 1_000, "t={t} r={r}");
        t += 37_777;
    }
}

#[test]
fn ease_cubic_matches_reference_midpoint() {
    let c = Curve::cubic(250_000, 100_000, 250_000, 1_000_000);
    // The standard CSS "ease" reaches about 0.8024 at the midpoint.
    assert_eq!(c.transform(500_000), 802_404);
}

#[test]
fn threshold_steps_at_its_boundary() {
    let c = Curve::threshold(500_000);
    assert_eq!(c.transform(300_000), 0);
    assert_eq!(c.transform(700_000), SCALE);
    assert_eq!(c.transform(499_999), 0);
    assert_eq!(c.transform(500_000), SCALE);
}

#[test]
fn saw_tooth_repeats_two_ramps() {
    let c = Curve::saw_tooth(2_000_000);
    assert_eq!(c.transform(250_000), 500_000);
    assert_eq!(c.transform(500_000), 0);
    assert_eq!(c.transform(750_000), 500_000);
}

#[test]
fn stepped_quantizes_into_four_levels() {
    let c = Curve::stepped(4, false, false);
    assert_eq!(c.transform(300_000), 250_000);
    assert_eq!(c.transform(600_000), 500_000);
}

#[test]
fn stepped_flags_shift_the_levels() {
    assert_eq!(Curve::stepped(4, true, false).transform(300_000), 400_000);
    assert_eq!(Curve::stepped(4, false, true).transform(300_000), 200_000);
    assert_eq!(Curve::stepped(4, true, true).transform(300_000), 333_333);
}

#[test]
fn decelerate_is_quadratic_ease_out() {
    let c = Curve::decelerate();
    // 1 - (1 - 0.5)^2 == 0.75
    assert_eq!(c.transform(500_000), 750_000);
    // 1 - (1 - 0.25)^2 == 0.4375
    assert_eq!(c.transform(250_000), 437_500);
}

#[test]
fn bounce_out_fixed_values() {
    let c = Curve::bounce_out();
    assert_eq!(c.transform(250_000), 472_656);
    assert_eq!(c.transform(500_000), 765_624);
}

#[test]
fn bounce_in_is_time_reverse_of_bounce_out() {
    let bi = Curve::bounce_in();
    let bo = Curve::bounce_out();
    for t in [100_000, 300_000, 550_000, 800_000] {
        assert_eq!(bi.transform(t), SCALE - bo.transform(SCALE - t));
    }
}

#[test]
fn elastic_curves_overshoot_inside_the_interval() {
    // Overshoot is permitted and must not be clamped: elastic-in dips
    // below zero and elastic-out rises above one strictly inside (0, 1).
    let ei = Curve::elastic_in();
    let eo = Curve::elastic_out();
    assert!(ei.transform(800_000) < 0);
    assert!(eo.transform(200_000) > SCALE);
}

#[test]
fn back_cubic_overshoots_below_zero() {
    let c = Curve::cubic(600_000, -280_000, 735_000, 45_000);
    assert!(c.transform(200_000) < 0);
}

#[test]
fn instant_curve_jumps_to_full_progress() {
    let c = Curve::Instant;
    assert_eq!(c.transform(0), 0);
    assert_eq!(c.transform(1), SCALE);
    assert_eq!(c.transform(999_999), SCALE);
}

#[test]
fn three_point_cubic_hits_its_midpoint() {
    let c = Curve::fast_ease_in_to_slow_ease_out();
    // At the midpoint's time the second segment starts at its origin, so
    // the value is exactly the midpoint's value.
    assert_eq!(c.transform(198_000), 541_000);
}

#[test]
fn presets_equal_their_parameter_forms() {
    assert_eq!(Curve::ease(), Curve::cubic(250_000, 100_000, 250_000, 1_000_000));
    assert_eq!(Curve::ease_in_out(), Curve::cubic(420_000, 0, 580_000, 1_000_000));
    assert_eq!(Curve::linear(), Curve::Linear);
    assert_eq!(Curve::decelerate(), Curve::Decelerate);
    assert_eq!(Curve::bounce_out(), Curve::BounceOut);
    assert_eq!(Curve::elastic_in(), Curve::ElasticIn(400_000));
}

#[test]
fn sampled_interior_values_stay_in_range_for_monotone_eases() {
    // Bounce and decelerate never leave the unit range; this also pins
    // down that the dispatcher applies the interior formula, not a clamp.
    for c in [Curve::bounce_in(), Curve::bounce_out(), Curve::bounce_in_out(), Curve::decelerate()]
    {
        let mut t: i64 = 1;
        while t < SCALE {
            let r = c.transform(t);
            assert!((0..=SCALE).contains(&r), "t={t} r={r}");
            t += 13_337;
        }
    }
}
