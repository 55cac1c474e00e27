//! The joint contrast and brightness curve.
//!
//! With `C = contrast / 25` and `B = brightness * 8192 / 50`, a sample `v`
//! below the pivot 8192 maps to
//! `v + B * s + C * v * (v - 8192) / 16384`, where `s` is 1 for
//! `brightness <= 0` and `v / 8192` otherwise; a sample at or above the pivot
//! maps to `v + B * s + C * (v - 8192) * (16384 - v) / 16384`, where `s` is
//! `(16383 - v) / 8192` for `brightness <= 0` and 1 otherwise. The result is
//! clamped to the 14-bit domain and rounded half away from zero.
//!
//! The value is computed exactly: every term is scaled by the common
//! denominator `25 * 16384`.
use vstd::prelude::*;

use super::{round_clamp_14, round_clamp_14_exec, Curve, MAX_14BIT, PIVOT_14BIT};

verus! {

/// The common denominator of the contrast formula, `25 * 16384`.
pub const CONTRAST_DENOMINATOR: i64 = 409600;

/// The contrast and brightness curve.
pub struct ContrastCurve {
    /// Contrast slider, nominally -100..=100.
    pub contrast: i8,
    /// Brightness slider, nominally -100..=100.
    pub brightness: i8,
    /// Whether the curve is switched on.
    pub enabled: bool,
}

/// The curve's value at `v`, times `CONTRAST_DENOMINATOR`, before clamping and
/// rounding.
pub open spec fn contrast_numerator(contrast: int, brightness: int, v: int) -> int {
    if v < 8192 {
        409600 * v + (if brightness <= 0 {
            brightness * 67108864
        } else {
            brightness * v * 8192
        }) + contrast * v * (v - 8192)
    } else {
        409600 * v + (if brightness <= 0 {
            brightness * (16383 - v) * 8192
        } else {
            brightness * 67108864
        }) + contrast * (v - 8192) * (16384 - v)
    }
}

/// The value of the enabled curve at `v`.
pub open spec fn contrast_value(contrast: i8, brightness: i8, v: u16) -> u16 {
    round_clamp_14(contrast_numerator(contrast as int, brightness as int, v as int), 409600) as u16
}

impl ContrastCurve {
    /// An enabled curve with the given sliders.
    pub fn new(contrast: i8, brightness: i8) -> (r: Self)
        ensures
            r.contrast == contrast,
            r.brightness == brightness,
            r.enabled,
    {
        ContrastCurve { contrast, brightness, enabled: true }
    }

    /// A curve with the given sliders and switch.
    pub fn with_enabled(contrast: i8, brightness: i8, enabled: bool) -> (r: Self)
        ensures
            r.contrast == contrast,
            r.brightness == brightness,
            r.enabled == enabled,
    {
        ContrastCurve { contrast, brightness, enabled }
    }
}

fn numerator_exec(contrast: i8, brightness: i8, v: u16) -> (n: i64)
    ensures
        n == contrast_numerator(contrast as int, brightness as int, v as int),
        -0x1000_0000_0000 < n < 0x1000_0000_0000,
{
    let c: i64 = contrast as i64;
    let b: i64 = brightness as i64;
    let x: i64 = v as i64;
    let pivot: i64 = PIVOT_14BIT as i64;
    assert(-128 <= c <= 127 && -128 <= b <= 127 && 0 <= x <= 65535);
    if x < pivot {
        let bt: i64 = if b <= 0 {
            b * 67108864
        } else {
            assert(b * x * 8192 <= 127 * 8192 * 8192) by (nonlinear_arith)
                requires
                    0 < b <= 127,
                    0 <= x < 8192,
            ;
            assert(b * x >= 0) by (nonlinear_arith)
                requires
                    0 < b,
                    0 <= x,
            ;
            b * x * 8192
        };
        let d: i64 = x - pivot;
        assert(-8192 <= d < 0);
        assert(-128 * 8192 * 8192 <= c * x * d <= 128 * 8192 * 8192) by (nonlinear_arith)
            requires
                -128 <= c <= 127,
                0 <= x < 8192,
                -8192 <= d < 0,
        ;
        assert(-128 * 8192 <= c * x <= 128 * 8192) by (nonlinear_arith)
            requires
                -128 <= c <= 127,
                0 <= x < 8192,
        ;
        let ct: i64 = c * x * d;
        409600 * x + bt + ct
    } else {
        let bt: i64 = if b <= 0 {
            let t: i64 = 16383 - x;
            assert(-65535 <= t <= 8191);
            assert(-128 * 65535 * 8192 <= b * t * 8192 <= 128 * 65535 * 8192) by (nonlinear_arith)
                requires
                    -128 <= b <= 0,
                    -65535 <= t <= 8191,
            ;
            assert(-128 * 65535 <= b * t <= 128 * 65535) by (nonlinear_arith)
                requires
                    -128 <= b <= 0,
                    -65535 <= t <= 8191,
            ;
            b * t * 8192
        } else {
            b * 67108864
        };
        let d: i64 = x - pivot;
        let e: i64 = 16384 - x;
        assert(0 <= d <= 57343 && -49151 <= e <= 8192);
        assert(-128 * 57343 * 49151 <= c * d * e <= 128 * 57343 * 49151) by (nonlinear_arith)
            requires
                -128 <= c <= 127,
                0 <= d <= 57343,
                -49151 <= e <= 8192,
        ;
        assert(-128 * 57343 <= c * d <= 128 * 57343) by (nonlinear_arith)
            requires
                -128 <= c <= 127,
                0 <= d <= 57343,
        ;
        let ct: i64 = c * d * e;
        409600 * x + bt + ct
    }
}

impl Curve for ContrastCurve {
    open spec fn curve_value(&self, v: u16) -> u16 {
        if !self.enabled {
            v
        } else {
            contrast_value(self.contrast, self.brightness, v)
        }
    }

    fn compute_single(&self, v: u16) -> (r: u16) {
        if !self.enabled {
            return v;
        }
        let n = numerator_exec(self.contrast, self.brightness, v);
        round_clamp_14_exec(n, CONTRAST_DENOMINATOR)
    }

    fn enabled(&self) -> (r: bool)
        ensures
            r == self.enabled,
    {
        self.enabled
    }
}

/// With both sliders at zero the curve is the identity on the 14-bit domain.
pub proof fn lemma_zero_sliders_identity(v: u16)
    requires
        v <= MAX_14BIT,
    ensures
        contrast_value(0, 0, v) == v,
{
    let n = contrast_numerator(0, 0, v as int);
    let x = v as int;
    assert(n == 409600 * x) by (nonlinear_arith)
        requires
            n == (if x < 8192 {
                409600 * x + 0 * 67108864 + 0 * x * (x - 8192)
            } else {
                409600 * x + 0 * (16383 - x) * 8192 + 0 * (x - 8192) * (16384 - x)
            }),
    ;
    if x > 0 {
        assert((2 * n + 409600) / 819200int == x) by (nonlinear_arith)
            requires
                n == 409600 * x,
        ;
    }
}

/// Without brightness the pivot maps to itself, whatever the contrast.
pub proof fn lemma_pivot_fixed(contrast: i8)
    ensures
        contrast_value(contrast, 0, PIVOT_14BIT) == PIVOT_14BIT,
{
    let c = contrast as int;
    let n = contrast_numerator(c, 0, 8192);
    assert(n == 409600 * 8192) by (nonlinear_arith)
        requires
            n == 409600 * 8192 + 0 * (16383 - 8192) * 8192 + c * (8192 - 8192) * (16384 - 8192),
    ;
    assert((2 * n + 409600) / 819200int == 8192);
}

/// Without brightness the low end of the domain maps to itself, and so does
/// the high end unless the contrast is below -25 (where the curve pulls the
/// top sample down by more than half a step).
pub proof fn lemma_contrast_keeps_endpoints(contrast: i8)
    requires
        contrast >= -25,
    ensures
        contrast_value(contrast, 0, 0) == 0,
        contrast_value(contrast, 0, MAX_14BIT) == MAX_14BIT,
{
    let c = contrast as int;
    let n0 = contrast_numerator(c, 0, 0);
    assert(n0 == 0) by (nonlinear_arith)
        requires
            n0 == 409600 * 0 + 0 * 67108864 + c * 0 * (0 - 8192),
    ;
    let n = contrast_numerator(c, 0, 16383);
    assert(n == 409600 * 16383 + c * 8191) by (nonlinear_arith)
        requires
            n == 409600 * 16383 + 0 * (16383 - 16383) * 8192 + c * (16383 - 8192) * (16384 - 16383),
    ;
    if n < 16383 * 409600 {
        assert((2 * n + 409600) / 819200int == 16383) by (nonlinear_arith)
            requires
                n == 409600 * 16383 + c * 8191,
                -25 <= c < 0,
        ;
    }
}

/// The curve never leaves the 14-bit domain.
pub proof fn lemma_contrast_in_domain(contrast: i8, brightness: i8, v: u16)
    ensures
        contrast_value(contrast, brightness, v) <= MAX_14BIT,
{
    let n = contrast_numerator(contrast as int, brightness as int, v as int);
    if 0 < n < 16383 * 409600 {
        assert((2 * n + 409600) / 819200int <= 16383) by (nonlinear_arith)
            requires
                0 < n < 16383 * 409600,
        ;
    }
}

/// The curve follows the documented formula: with `C = contrast / 25` and
/// `B = brightness * 8192 / 50`, below the pivot
/// `v + B * s + C * v * (v - 8192) / 16384` with `s = 1` when darkening and
/// `v / 8192` when brightening, and from the pivot on
/// `v + B * s + C * (v - 8192) * (16384 - v) / 16384` with
/// `s = (16383 - v) / 8192` when darkening and `1` when brightening; every
/// term is written here over the denominator `25 * 16384 = 409600`, then the
/// value is rounded and clamped.
pub proof fn lemma_contrast_formula(contrast: i8, brightness: i8, v: u16)
    ensures
        ({
            let c = contrast as int;
            let b = brightness as int;
            let x = v as int;
            &&& x < 8192 && b <= 0 ==> contrast_value(contrast, brightness, v) == round_clamp_14(
                409600 * x + b * 8192 * 8192 + c * x * (x - 8192),
                409600,
            )
            &&& x < 8192 && b > 0 ==> contrast_value(contrast, brightness, v) == round_clamp_14(
                409600 * x + b * 8192 * x + c * x * (x - 8192),
                409600,
            )
            &&& x >= 8192 && b <= 0 ==> contrast_value(contrast, brightness, v) == round_clamp_14(
                409600 * x + b * 8192 * (16383 - x) + c * (x - 8192) * (16384 - x),
                409600,
            )
            &&& x >= 8192 && b > 0 ==> contrast_value(contrast, brightness, v) == round_clamp_14(
                409600 * x + b * 8192 * 8192 + c * (x - 8192) * (16384 - x),
                409600,
            )
        }),
{
    let c = contrast as int;
    let x = v as int;
    let b = brightness as int;
    assert(b * 8192 * 8192 == b * 67108864) by (nonlinear_arith);
    assert(b * 8192 * x == b * x * 8192) by (nonlinear_arith);
    assert(b * 8192 * (16383 - x) == b * (16383 - x) * 8192) by (nonlinear_arith);
    if x < 8192 && b <= 0 {
        assert(contrast_numerator(c, b, x) == 409600 * x + b * 8192 * 8192 + c * x * (x - 8192));
    }
}

/// Darkening without contrast moves every shadow sample down by the same
/// amount `brightness * 8192 / 50` (rounded), as long as the result stays
/// above 0: two shadow samples keep their distance, and none gets lighter.
pub proof fn lemma_darkening_shifts_shadows_evenly(brightness: i8, v: u16, w: u16)
    requires
        brightness <= 0,
        v < 8192,
        w < 8192,
        409600 * v + 67108864 * brightness > 0,
        409600 * w + 67108864 * brightness > 0,
    ensures
        contrast_value(0, brightness, w) - contrast_value(0, brightness, v) == w - v,
        contrast_value(0, brightness, v) <= v,
{
    let k = 2 * 67108864 * (brightness as int) + 409600;
    lemma_dark_value(brightness, v);
    lemma_dark_value(brightness, w);
    assert(k / 819200 <= 0);
}

proof fn lemma_dark_value(brightness: i8, v: u16)
    requires
        brightness <= 0,
        v < 8192,
        409600 * v + 67108864 * brightness > 0,
    ensures
        contrast_value(0, brightness, v) == v + (2 * 67108864 * (brightness as int) + 409600) / 819200,
{
    let x = v as int;
    let b = brightness as int;
    let n = contrast_numerator(0, b, x);
    assert(n == 409600 * x + 67108864 * b) by (nonlinear_arith)
        requires
            n == 409600 * x + b * 67108864 + 0 * x * (x - 8192),
    ;
    assert(n < 16383 * 409600);
    let k = 2 * 67108864 * b + 409600;
    assert(2 * n + 409600 == k + x * 819200) by (nonlinear_arith)
        requires
            n == 409600 * x + 67108864 * b,
            k == 2 * 67108864 * b + 409600,
    ;
    vstd::arithmetic::div_mod::lemma_hoist_over_denominator(k, x, 819200);
}

/// Brightening keeps black at black, and darkening with a contrast of at
/// least -25 keeps white at white.
pub proof fn lemma_brightness_keeps_far_end(contrast: i8, brightness: i8)
    ensures
        brightness > 0 ==> contrast_value(contrast, brightness, 0) == 0,
        brightness <= 0 && contrast >= -25 ==> contrast_value(contrast, brightness, MAX_14BIT) == MAX_14BIT,
{
    let c = contrast as int;
    let b = brightness as int;
    if b > 0 {
        let n0 = contrast_numerator(c, b, 0);
        assert(n0 == 0) by (nonlinear_arith)
            requires
                n0 == 409600 * 0 + b * 0 * 8192 + c * 0 * (0 - 8192),
        ;
    } else {
        let n = contrast_numerator(c, b, 16383);
        assert(n == 409600 * 16383 + c * 8191) by (nonlinear_arith)
            requires
                n == 409600 * 16383 + b * (16383 - 16383) * 8192 + c * (16383 - 8192) * (16384 - 16383),
        ;
        if contrast >= -25 && n < 16383 * 409600 {
            assert((2 * n + 409600) / 819200int == 16383) by (nonlinear_arith)
                requires
                    n == 409600 * 16383 + c * 8191,
                    -25 <= c < 0,
            ;
        }
    }
}

} // verus!
