use tweening::fixed::SCALE;
use tweening::tween::lerp::Lerp;
use tweening::tween::repr::{Gradient, parse_color, parse_shadow};
use tweening::tween::value::{Color, Fill, Point, Shadow, ShadowPosition, Value};

fn black() -> Color {
    Color { r: 0, g: 0, b: 0, a: 255 }
}

fn white() -> Color {
    Color { r: 255, g: 255, b: 255, a: 255 }
}

fn sample_shadow() -> Shadow {
    Shadow {
        position: ShadowPosition::Normal,
        x: 2_500_000,
        y: -1_000_000,
        blur: 500_000,
        spread: 0,
        fill: Fill::Color(Color { r: 10, g: 20, b: 30, a: 255 }),
    }
}

#[test]
fn numbers_blend_linearly() {
    let start = Value::Number(0);
    let end = Value::Number(10_000_000);
    let mid = start.try_lerp(&end, 500_000);
    assert_eq!(mid, Some(Value::Number(5_000_000)));
}

#[test]
fn colors_blend_to_mid_gray() {
    let mid = Value::Color(black()).try_lerp(&Value::Color(white()), 500_000);
    let Some(Value::Color(c)) = mid else {
        panic!("expected a color");
    };
    for ch in [c.r, c.g, c.b] {
        assert!(ch == 127 || ch == 128);
    }
    assert_eq!(c.a, 255);
}

#[test]
fn points_blend_componentwise() {
    let start = Value::Point(Point { x: 0, y: 1_000_000 });
    let end = Value::Point(Point { x: 1_000_000, y: 3_000_000 });
    let mid = start.try_lerp(&end, 250_000);
    assert_eq!(mid, Some(Value::Point(Point { x: 250_000, y: 1_500_000 })));
}

#[test]
fn shadows_blend_fieldwise_and_keep_position() {
    let start = Value::Shadow(Shadow {
        position: ShadowPosition::Inset,
        x: 0,
        y: 0,
        blur: 0,
        spread: 0,
        fill: Fill::Color(black()),
    });
    let end = Value::Shadow(Shadow {
        position: ShadowPosition::Normal,
        x: 1_000_000,
        y: 2_000_000,
        blur: 4_000_000,
        spread: 8_000_000,
        fill: Fill::Color(black()),
    });
    let mid = start.try_lerp(&end, 500_000);
    let Some(Value::Shadow(sh)) = mid else {
        panic!("expected a shadow");
    };
    assert_eq!(sh.position, ShadowPosition::Inset);
    assert_eq!(sh.x, 500_000);
    assert_eq!(sh.y, 1_000_000);
    assert_eq!(sh.blur, 2_000_000);
    assert_eq!(sh.spread, 4_000_000);
    assert_eq!(sh.fill, Fill::Color(black()));
}

#[test]
fn mismatched_variants_never_blend() {
    let n = Value::Number(0);
    let p = Value::Point(Point { x: 0, y: 0 });
    assert_eq!(n.try_lerp(&p, 500_000), None);
    assert_eq!(p.try_lerp(&n, 500_000), None);
    let c = Value::Color(black());
    assert_eq!(c.try_lerp(&n, 0), None);
}

#[test]
fn gradients_and_gradient_fills_never_blend() {
    let g = Value::Gradient(String::from("linear-gradient()"));
    assert_eq!(g.try_lerp(&g, 500_000), None);
    let flat = Value::Shadow(sample_shadow());
    let mut gradient_filled = sample_shadow();
    gradient_filled.fill = Fill::Gradient(String::from("linear-gradient()"));
    let gradient_filled = Value::Shadow(gradient_filled);
    assert_eq!(flat.try_lerp(&gradient_filled, 500_000), None);
}

#[test]
fn self_blend_is_identity_for_every_blendable_variant() {
    let values = vec![
        Value::Number(7_777),
        Value::Number(-123_456),
        Value::Point(Point { x: 31, y: -47 }),
        Value::Color(Color { r: 13, g: 200, b: 77, a: 9 }),
        Value::Shadow(sample_shadow()),
    ];
    for v in values {
        for f in [-250_000, 0, 1, 250_000, 333_333, 500_000, 999_999, 1_000_000, 1_250_000] {
            assert_eq!(v.try_lerp(&v, f), Some(v.clone()));
        }
    }
}

#[test]
fn overshooting_fractions_extrapolate_numbers() {
    // An eased progress outside [0, 1] (elastic or back curves produce
    // them) extrapolates beyond the endpoints instead of clamping.
    let start = Value::Number(0);
    let end = Value::Number(10_000_000);
    assert_eq!(
        start.try_lerp(&end, 1_250_000),
        Some(Value::Number(12_500_000))
    );
    assert_eq!(
        start.try_lerp(&end, -250_000),
        Some(Value::Number(-2_500_000))
    );
}

#[test]
fn overshooting_fractions_saturate_color_channels() {
    // Channels clamp at the 8-bit range under extrapolation.
    let over = Value::Color(black()).try_lerp(&Value::Color(white()), 1_250_000);
    let Some(Value::Color(c)) = over else {
        panic!("expected a color");
    };
    assert_eq!((c.r, c.g, c.b, c.a), (255, 255, 255, 255));
    let under = Value::Color(white()).try_lerp(&Value::Color(black()), 1_250_000);
    let Some(Value::Color(c)) = under else {
        panic!("expected a color");
    };
    assert_eq!((c.r, c.g, c.b, c.a), (0, 0, 0, 255));
}

#[test]
fn lerp_endpoints_are_exact() {
    let a: i64 = -5_000_000;
    let b: i64 = 9_999_999;
    assert_eq!(a.lerp(&b, 0), a);
    assert_eq!(a.lerp(&b, SCALE), b);
    // The largest representable scalars still interpolate exactly at the ends.
    let lo: i64 = -1_000_000_000_000;
    let hi: i64 = 1_000_000_000_000;
    assert_eq!(lo.lerp(&hi, 0), lo);
    assert_eq!(lo.lerp(&hi, SCALE), hi);
    assert_eq!(lo.lerp(&hi, 500_000), 0);
}

#[test]
fn accessors_return_only_their_own_variant() {
    let n = Value::Number(42);
    let p = Value::Point(Point { x: 1, y: 2 });
    let c = Value::Color(black());
    assert_eq!(n.as_number(), Some(42));
    assert_eq!(n.as_color(), None);
    assert_eq!(n.as_point(), None);
    assert_eq!(p.as_point(), Some(Point { x: 1, y: 2 }));
    assert_eq!(p.as_number(), None);
    assert_eq!(c.as_color(), Some(black()));
    assert_eq!(c.as_number(), None);
}

#[test]
fn color_serializes_as_rgb_literal() {
    let v = Value::Color(Color { r: 1, g: 22, b: 3, a: 255 });
    assert_eq!(v.to_external_representation().unwrap(), "rgb(1, 22, 3, 255)");
}

#[test]
fn shadow_serializes_with_scalars_and_color() {
    let v = Value::Shadow(sample_shadow());
    assert_eq!(
        v.to_external_representation().unwrap(),
        "2.500000 -1.000000 0.500000 0.000000 rgb(10, 20, 30, 255)"
    );
}

#[test]
fn inset_shadow_serializes_with_prefix() {
    let mut sh = sample_shadow();
    sh.position = ShadowPosition::Inset;
    let v = Value::Shadow(sh);
    assert_eq!(
        v.to_external_representation().unwrap(),
        "inset 2.500000 -1.000000 0.500000 0.000000 rgb(10, 20, 30, 255)"
    );
}

#[test]
fn gradient_value_passes_through_unchanged() {
    let v = Value::Gradient(String::from("linear-gradient(rgb(1, 2, 3, 4) 0.000000%)"));
    assert_eq!(
        v.to_external_representation().unwrap(),
        "linear-gradient(rgb(1, 2, 3, 4) 0.000000%)"
    );
}

#[test]
fn numbers_and_points_have_no_string_form() {
    assert_eq!(Value::Number(5).to_external_representation(), None);
    assert_eq!(Value::Point(Point { x: 1, y: 2 }).to_external_representation(), None);
    let mut sh = sample_shadow();
    sh.fill = Fill::Gradient(String::from("linear-gradient()"));
    assert_eq!(Value::Shadow(sh).to_external_representation(), None);
}

#[test]
fn gradient_builder_emits_the_descriptor() {
    let v = Gradient::linear()
        .stop(0, Color { r: 255, g: 0, b: 0, a: 255 })
        .stop(500_000, Color { r: 0, g: 255, b: 0, a: 255 })
        .stop(1_000_000, Color { r: 0, g: 0, b: 255, a: 255 })
        .build();
    let Value::Gradient(s) = v else {
        panic!("expected a gradient");
    };
    assert_eq!(
        s,
        "linear-gradient(rgb(255, 0, 0, 255) 0.000000%, rgb(0, 255, 0, 255) 50.000000%, \
         rgb(0, 0, 255, 255) 100.000000%)"
    );
}

#[test]
fn radial_and_conic_builders_use_their_kind() {
    let Value::Gradient(r) = Gradient::radial().stop(0, black()).build() else {
        panic!("expected a gradient");
    };
    assert!(r.starts_with("radial-gradient("));
    let Value::Gradient(c) = Gradient::conic().build() else {
        panic!("expected a gradient");
    };
    assert_eq!(c, "conic-gradient()");
}

#[test]
fn color_round_trips_through_its_literal() {
    let c = Color { r: 12, g: 0, b: 255, a: 7 };
    let s = Value::Color(c).to_external_representation().unwrap();
    assert_eq!(parse_color(&s), Some(c));
    assert_eq!(Value::from_literal(s), Some(Value::Color(c)));
}

#[test]
fn shadow_round_trips_through_its_literal() {
    for position in [ShadowPosition::Normal, ShadowPosition::Inset] {
        let mut sh = sample_shadow();
        sh.position = position;
        let s = Value::Shadow(sh.clone()).to_external_representation().unwrap();
        assert_eq!(parse_shadow(&s), Some(sh.clone()));
        assert_eq!(Value::from_literal(s), Some(Value::Shadow(sh)));
    }
}

#[test]
fn extreme_and_tiny_shadow_scalars_round_trip() {
    // The largest representable scalar and a sub-unit negative one both
    // survive serialization and re-parsing unchanged.
    let sh = Shadow {
        position: ShadowPosition::Normal,
        x: 1_000_000_000_000,
        y: -1_000_000_000_000,
        blur: -5,
        spread: 999_999,
        fill: Fill::Color(Color { r: 0, g: 255, b: 7, a: 128 }),
    };
    let s = Value::Shadow(sh.clone()).to_external_representation().unwrap();
    assert_eq!(
        s,
        "1000000.000000 -1000000.000000 -0.000005 0.999999 rgb(0, 255, 7, 128)"
    );
    assert_eq!(parse_shadow(&s), Some(sh));
}

#[test]
fn near_canonical_literals_are_rejected() {
    // A parse accepts only the canonical spelling.
    assert_eq!(parse_color(&String::from("rgb(01, 2, 3, 4)")), None);
    assert_eq!(parse_color(&String::from("rgb(1, 2, 3, 4) ")), None);
    assert_eq!(parse_shadow(&String::from("1.5 0.0 0.0 0.0 rgb(1, 2, 3, 4)")), None);
}

#[test]
fn gradient_literal_is_kept_opaque() {
    let s = String::from("linear-gradient(rgb(1, 2, 3, 4) 0.000000%)");
    assert_eq!(Value::from_literal(s.clone()), Some(Value::Gradient(s)));
}

#[test]
fn unreadable_literals_are_rejected() {
    assert_eq!(Value::from_literal(String::from("")), None);
    assert_eq!(Value::from_literal(String::from("not a literal")), None);
    assert_eq!(Value::from_literal(String::from("rgb(999, 0, 0, 0)")), None);
    assert_eq!(Value::from_literal(String::from("rgb(1,2,3,4)")), None);
}
