//! The fixed catalog of named curve presets: the standard CSS-style
//! eases and their sine/quad/cubic/quart/quint/expo/circ/back variants,
//! two emphasized composite eases, and the bounce, elastic and
//! decelerate families, for callers who want standard shapes by name
//! rather than by raw parameters.

use vstd::prelude::*;
use crate::fixed::SCALE;
use super::{Curve, ThreePointCubic, DEFAULT_ELASTIC_PERIOD};
use super::cubic::CubicCurve;

verus! {

impl Curve {
    /// The `linear` preset.
    pub fn linear() -> (c: Curve)
        ensures
            c == Curve::Linear,
            c.wf(),
    {
        Curve::Linear
    }

    /// The `decelerate` preset.
    pub fn decelerate() -> (c: Curve)
        ensures
            c == Curve::Decelerate,
            c.wf(),
    {
        Curve::Decelerate
    }

    /// The `fast_linear_to_slow_ease_in` preset.
    pub fn fast_linear_to_slow_ease_in() -> (c: Curve)
        ensures
            c == Curve::Cubic((CubicCurve { a: 180_000, b: 1_000_000, c: 40_000, d: 1_000_000 })),
            c.wf(),
    {
        Curve::cubic(180_000, 1_000_000, 40_000, 1_000_000)
    }

    /// The `ease` preset.
    pub fn ease() -> (c: Curve)
        ensures
            c == Curve::Cubic((CubicCurve { a: 250_000, b: 100_000, c: 250_000, d: 1_000_000 })),
            c.wf(),
    {
        Curve::cubic(250_000, 100_000, 250_000, 1_000_000)
    }

    /// The `ease_in` preset.
    pub fn ease_in() -> (c: Curve)
        ensures
            c == Curve::Cubic((CubicCurve { a: 420_000, b: 0, c: 1_000_000, d: 1_000_000 })),
            c.wf(),
    {
        Curve::cubic(420_000, 0, 1_000_000, 1_000_000)
    }

    /// The `ease_in_to_linear` preset.
    pub fn ease_in_to_linear() -> (c: Curve)
        ensures
            c == Curve::Cubic((CubicCurve { a: 670_000, b: 30_000, c: 650_000, d: 90_000 })),
            c.wf(),
    {
        Curve::cubic(670_000, 30_000, 650_000, 90_000)
    }

    /// The `ease_in_sine` preset.
    pub fn ease_in_sine() -> (c: Curve)
        ensures
            c == Curve::Cubic((CubicCurve { a: 470_000, b: 0, c: 745_000, d: 715_000 })),
            c.wf(),
    {
        Curve::cubic(470_000, 0, 745_000, 715_000)
    }

    /// The `ease_in_quad` preset.
    pub fn ease_in_quad() -> (c: Curve)
        ensures
            c == Curve::Cubic((CubicCurve { a: 550_000, b: 85_000, c: 680_000, d: 530_000 })),
            c.wf(),
    {
        Curve::cubic(550_000, 85_000, 680_000, 530_000)
    }

    /// The `ease_in_cubic` preset.
    pub fn ease_in_cubic() -> (c: Curve)
        ensures
            c == Curve::Cubic((CubicCurve { a: 550_000, b: 55_000, c: 675_000, d: 190_000 })),
            c.wf(),
    {
        Curve::cubic(550_000, 55_000, 675_000, 190_000)
    }

    /// The `ease_in_quart` preset.
    pub fn ease_in_quart() -> (c: Curve)
        ensures
            c == Curve::Cubic((CubicCurve { a: 895_000, b: 30_000, c: 685_000, d: 220_000 })),
            c.wf(),
    {
        Curve::cubic(895_000, 30_000, 685_000, 220_000)
    }

    /// The `ease_in_quint` preset.
    pub fn ease_in_quint() -> (c: Curve)
        ensures
            c == Curve::Cubic((CubicCurve { a: 755_000, b: 50_000, c: 855_000, d: 60_000 })),
            c.wf(),
    {
        Curve::cubic(755_000, 50_000, 855_000, 60_000)
    }

    /// The `ease_in_expo` preset.
    pub fn ease_in_expo() -> (c: Curve)
        ensures
            c == Curve::Cubic((CubicCurve { a: 950_000, b: 50_000, c: 795_000, d: 35_000 })),
            c.wf(),
    {
        Curve::cubic(950_000, 50_000, 795_000, 35_000)
    }

    /// The `ease_in_circ` preset.
    pub fn ease_in_circ() -> (c: Curve)
        ensures
            c == Curve::Cubic((CubicCurve { a: 600_000, b: 40_000, c: 980_000, d: 335_000 })),
            c.wf(),
    {
        Curve::cubic(600_000, 40_000, 980_000, 335_000)
    }

    /// The `ease_in_back` preset.
    pub fn ease_in_back() -> (c: Curve)
        ensures
            c == Curve::Cubic((CubicCurve { a: 600_000, b: -280_000i64, c: 735_000, d: 45_000 })),
            c.wf(),
    {
        Curve::cubic(600_000, -280_000, 735_000, 45_000)
    }

    /// The `ease_out` preset.
    pub fn ease_out() -> (c: Curve)
        ensures
            c == Curve::Cubic((CubicCurve { a: 0, b: 0, c: 580_000, d: 1_000_000 })),
            c.wf(),
    {
        Curve::cubic(0, 0, 580_000, 1_000_000)
    }

    /// The `linear_to_ease_out` preset.
    pub fn linear_to_ease_out() -> (c: Curve)
        ensures
            c == Curve::Cubic((CubicCurve { a: 350_000, b: 910_000, c: 330_000, d: 970_000 })),
            c.wf(),
    {
        Curve::cubic(350_000, 910_000, 330_000, 970_000)
    }

    /// The `ease_out_sine` preset.
    pub fn ease_out_sine() -> (c: Curve)
        ensures
            c == Curve::Cubic((CubicCurve { a: 390_000, b: 575_000, c: 565_000, d: 1_000_000 })),
            c.wf(),
    {
        Curve::cubic(390_000, 575_000, 565_000, 1_000_000)
    }

    /// The `ease_out_quad` preset.
    pub fn ease_out_quad() -> (c: Curve)
        ensures
            c == Curve::Cubic((CubicCurve { a: 250_000, b: 460_000, c: 450_000, d: 940_000 })),
            c.wf(),
    {
        Curve::cubic(250_000, 460_000, 450_000, 940_000)
    }

    /// The `ease_out_cubic` preset.
    pub fn ease_out_cubic() -> (c: Curve)
        ensures
            c == Curve::Cubic((CubicCurve { a: 215_000, b: 610_000, c: 355_000, d: 1_000_000 })),
            c.wf(),
    {
        Curve::cubic(215_000, 610_000, 355_000, 1_000_000)
    }

    /// The `ease_out_quart` preset.
    pub fn ease_out_quart() -> (c: Curve)
        ensures
            c == Curve::Cubic((CubicCurve { a: 165_000, b: 840_000, c: 440_000, d: 1_000_000 })),
            c.wf(),
    {
        Curve::cubic(165_000, 840_000, 440_000, 1_000_000)
    }

    /// The `ease_out_quint` preset.
    pub fn ease_out_quint() -> (c: Curve)
        ensures
            c == Curve::Cubic((CubicCurve { a: 230_000, b: 1_000_000, c: 320_000, d: 1_000_000 })),
            c.wf(),
    {
        Curve::cubic(230_000, 1_000_000, 320_000, 1_000_000)
    }

    /// The `ease_out_expo` preset.
    pub fn ease_out_expo() -> (c: Curve)
        ensures
            c == Curve::Cubic((CubicCurve { a: 190_000, b: 1_000_000, c: 220_000, d: 1_000_000 })),
            c.wf(),
    {
        Curve::cubic(190_000, 1_000_000, 220_000, 1_000_000)
    }

    /// The `ease_out_circ` preset.
    pub fn ease_out_circ() -> (c: Curve)
        ensures
            c == Curve::Cubic((CubicCurve { a: 75_000, b: 820_000, c: 165_000, d: 1_000_000 })),
            c.wf(),
    {
        Curve::cubic(75_000, 820_000, 165_000, 1_000_000)
    }

    /// The `ease_out_back` preset.
    pub fn ease_out_back() -> (c: Curve)
        ensures
            c == Curve::Cubic((CubicCurve { a: 175_000, b: 885_000, c: 320_000, d: 1_275_000 })),
            c.wf(),
    {
        Curve::cubic(175_000, 885_000, 320_000, 1_275_000)
    }

    /// The `ease_in_out` preset.
    pub fn ease_in_out() -> (c: Curve)
        ensures
            c == Curve::Cubic((CubicCurve { a: 420_000, b: 0, c: 580_000, d: 1_000_000 })),
            c.wf(),
    {
        Curve::cubic(420_000, 0, 580_000, 1_000_000)
    }

    /// The `ease_in_out_sine` preset.
    pub fn ease_in_out_sine() -> (c: Curve)
        ensures
            c == Curve::Cubic((CubicCurve { a: 445_000, b: 50_000, c: 550_000, d: 950_000 })),
            c.wf(),
    {
        Curve::cubic(445_000, 50_000, 550_000, 950_000)
    }

    /// The `ease_in_out_quad` preset.
    pub fn ease_in_out_quad() -> (c: Curve)
        ensures
            c == Curve::Cubic((CubicCurve { a: 455_000, b: 30_000, c: 515_000, d: 955_000 })),
            c.wf(),
    {
        Curve::cubic(455_000, 30_000, 515_000, 955_000)
    }

    /// The `ease_in_out_cubic` preset.
    pub fn ease_in_out_cubic() -> (c: Curve)
        ensures
            c == Curve::Cubic((CubicCurve { a: 645_000, b: 45_000, c: 355_000, d: 1_000_000 })),
            c.wf(),
    {
        Curve::cubic(645_000, 45_000, 355_000, 1_000_000)
    }

    /// The `ease_in_out_quart` preset.
    pub fn ease_in_out_quart() -> (c: Curve)
        ensures
            c == Curve::Cubic((CubicCurve { a: 770_000, b: 0, c: 175_000, d: 1_000_000 })),
            c.wf(),
    {
        Curve::cubic(770_000, 0, 175_000, 1_000_000)
    }

    /// The `ease_in_out_quint` preset.
    pub fn ease_in_out_quint() -> (c: Curve)
        ensures
            c == Curve::Cubic((CubicCurve { a: 860_000, b: 0, c: 70_000, d: 1_000_000 })),
            c.wf(),
    {
        Curve::cubic(860_000, 0, 70_000, 1_000_000)
    }

    /// The `ease_in_out_expo` preset.
    pub fn ease_in_out_expo() -> (c: Curve)
        ensures
            c == Curve::Cubic((CubicCurve { a: 1_000_000, b: 0, c: 0, d: 1_000_000 })),
            c.wf(),
    {
        Curve::cubic(1_000_000, 0, 0, 1_000_000)
    }

    /// The `ease_in_out_circ` preset.
    pub fn ease_in_out_circ() -> (c: Curve)
        ensures
            c == Curve::Cubic((CubicCurve { a: 785_000, b: 135_000, c: 150_000, d: 860_000 })),
            c.wf(),
    {
        Curve::cubic(785_000, 135_000, 150_000, 860_000)
    }

    /// The `ease_in_out_back` preset.
    pub fn ease_in_out_back() -> (c: Curve)
        ensures
            c == Curve::Cubic((CubicCurve { a: 680_000, b: -550_000i64, c: 265_000, d: 1_550_000 })),
            c.wf(),
    {
        Curve::cubic(680_000, -550_000, 265_000, 1_550_000)
    }

    /// The `fast_out_slow_in` preset.
    pub fn fast_out_slow_in() -> (c: Curve)
        ensures
            c == Curve::Cubic((CubicCurve { a: 400_000, b: 0, c: 200_000, d: 1_000_000 })),
            c.wf(),
    {
        Curve::cubic(400_000, 0, 200_000, 1_000_000)
    }

    /// The `slow_middle` preset.
    pub fn slow_middle() -> (c: Curve)
        ensures
            c == Curve::Cubic((CubicCurve { a: 150_000, b: 850_000, c: 850_000, d: 150_000 })),
            c.wf(),
    {
        Curve::cubic(150_000, 850_000, 850_000, 150_000)
    }

    /// The `fast_ease_in_to_slow_ease_out` preset.
    pub fn fast_ease_in_to_slow_ease_out() -> (c: Curve)
        ensures
            c == Curve::ThreePointCubic(
                ThreePointCubic::from_points((56_000, 24_000), (108_000, 308_500), (198_000, 541_000), (365_500, 1_000_000), (546_500, 989_000)),
            ),
            c.wf(),
    {
        Curve::three_point_cubic((56_000, 24_000), (108_000, 308_500), (198_000, 541_000), (365_500, 1_000_000), (546_500, 989_000))
    }

    /// The `ease_in_out_cubic_emphasized` preset.
    pub fn ease_in_out_cubic_emphasized() -> (c: Curve)
        ensures
            c == Curve::ThreePointCubic(
                ThreePointCubic::from_points((50_000, 0), (133_333, 60_000), (166_666, 400_000), (208_333, 820_000), (250_000, 1_000_000)),
            ),
            c.wf(),
    {
        Curve::three_point_cubic((50_000, 0), (133_333, 60_000), (166_666, 400_000), (208_333, 820_000), (250_000, 1_000_000))
    }

    /// The `bounce_in` preset.
    pub fn bounce_in() -> (c: Curve)
        ensures
            c == Curve::BounceIn,
            c.wf(),
    {
        Curve::BounceIn
    }

    /// The `bounce_out` preset.
    pub fn bounce_out() -> (c: Curve)
        ensures
            c == Curve::BounceOut,
            c.wf(),
    {
        Curve::BounceOut
    }

    /// The `bounce_in_out` preset.
    pub fn bounce_in_out() -> (c: Curve)
        ensures
            c == Curve::BounceInOut,
            c.wf(),
    {
        Curve::BounceInOut
    }

    /// The `elastic_in` preset.
    pub fn elastic_in() -> (c: Curve)
        ensures
            c == Curve::ElasticIn(DEFAULT_ELASTIC_PERIOD),
            c.wf(),
    {
        Curve::ElasticIn(DEFAULT_ELASTIC_PERIOD)
    }

    /// The `elastic_out` preset.
    pub fn elastic_out() -> (c: Curve)
        ensures
            c == Curve::ElasticOut(DEFAULT_ELASTIC_PERIOD),
            c.wf(),
    {
        Curve::ElasticOut(DEFAULT_ELASTIC_PERIOD)
    }

    /// The `elastic_in_out` preset.
    pub fn elastic_in_out() -> (c: Curve)
        ensures
            c == Curve::ElasticInOut(DEFAULT_ELASTIC_PERIOD),
            c.wf(),
    {
        Curve::ElasticInOut(DEFAULT_ELASTIC_PERIOD)
    }

}

} // verus!
