//! Lightness (shadow depth): a luma-driven offset added to all three channels.
//!
//! The lightness slider sets the second of four control points,
//! `(0, 0), (2, y1), (50, 50), (255, 255)` with
//! `y1 = clamp(lightness * 250 / 100 + 2, 0, 255)`; the curve through them is
//! the spline of `PointCurve::from_xml_points`. Each pixel's BT.601
//! luma `(299 r + 587 g + 114 b) / 1000` (limited to 16383) is looked up, and
//! the difference between table and luma is added to every channel, clamped
//! to the 14-bit domain.
use vstd::prelude::*;

use super::curves::point::{CurvePoint, PointCurve};
use super::curves::spline::is_spline_table;
use super::curves::MAX_14BIT;

verus! {

/// The lightness adjustment and its table.
pub struct LightnessCurve {
    /// The lightness slider.
    pub lightness: i16,
    /// Whether slider adjustments are applied.
    pub apply_sliders: bool,
    /// The curve's table over the 14-bit domain.
    pub lut: Box<[u16; 16384]>,
}

/// The second control point's level for a lightness value, truncating the
/// division toward zero.
pub fn lightness_level(lightness: i16) -> (r: u8)
    ensures
        r == lightness_y1_trunc(lightness),
{
    let p: i32 = lightness as i32 * 250;
    let q: i32 = if p >= 0 {
        p / 100
    } else {
        -((-p) / 100)
    };
    let v: i32 = q + 2;
    if v < 0 {
        0
    } else if v > 255 {
        255
    } else {
        v as u8
    }
}

/// `lightness * 250 / 100 + 2` with the division truncated toward zero, clamped
/// to a byte.
pub open spec fn lightness_y1_trunc(lightness: i16) -> int {
    let p = lightness * 250;
    let q = if p >= 0 {
        p / 100
    } else {
        -((-p) / 100)
    };
    let v = q + 2;
    if v < 0 {
        0
    } else if v > 255 {
        255
    } else {
        v
    }
}

/// The four control points of the lightness curve as `(x, y, marker)`.
pub fn lightness_points(lightness: i16) -> (r: Vec<(i64, i64, i64)>)
    ensures
        r@ == seq![(0i64, 0i64, 1i64), (2i64, lightness_y1_trunc(lightness) as i64, 1i64), (50i64, 50i64, 1i64), (255i64, 255i64, 1i64)],
{
    let y1 = lightness_level(lightness);
    vec![(0, 0, 1), (2, y1 as i64, 1), (50, 50, 1), (255, 255, 1)]
}

/// The four control points of the lightness curve.
pub open spec fn lightness_control_points(lightness: i16) -> Seq<CurvePoint> {
    seq![
        CurvePoint { x: 0, y: 0, dy: 1 },
        CurvePoint { x: 2, y: lightness_y1_trunc(lightness) as u8, dy: 1 },
        CurvePoint { x: 50, y: 50, dy: 1 },
        CurvePoint { x: 255, y: 255, dy: 1 },
    ]
}

/// The luma of a pixel, limited to the 14-bit domain.
pub open spec fn luma_14(r: int, g: int, b: int) -> int {
    let l = (r * 299 + g * 587 + b * 114) / 1000;
    if l > 16383 {
        16383
    } else {
        l
    }
}

/// `v + delta` clamped to the 14-bit domain.
pub open spec fn offset_14(v: int, delta: int) -> u16 {
    let o = v + delta;
    if o < 0 {
        0
    } else if o > 16383 {
        16383
    } else {
        o as u16
    }
}

/// Whether `after` is `before` with the pixel at `base` lifted by table `lut`.
pub open spec fn pixel_lifted(lut: Seq<u16>, before: Seq<u16>, after: Seq<u16>, base: int) -> bool {
    let r = before[base] as int;
    let g = before[base + 1] as int;
    let b = before[base + 2] as int;
    let l = luma_14(r, g, b);
    let delta = lut[l] - l;
    &&& after[base] == offset_14(r, delta)
    &&& after[base + 1] == offset_14(g, delta)
    &&& after[base + 2] == offset_14(b, delta)
}

fn offset_exec(v: u16, delta: i32) -> (r: u16)
    requires
        -16383 <= delta <= 65535,
    ensures
        r == offset_14(v as int, delta as int),
{
    let o: i32 = v as i32 + delta;
    if o < 0 {
        0
    } else if o > MAX_14BIT as i32 {
        MAX_14BIT
    } else {
        o as u16
    }
}

impl LightnessCurve {
    /// The adjustment for a slider value and switch, its table that of the
    /// curve through `lightness_points(lightness)`.
    pub fn new(lightness: i16, apply_sliders: bool) -> (r: Self)
        ensures
            r.lightness == lightness,
            r.apply_sliders == apply_sliders,
            is_spline_table(lightness_control_points(lightness), r.lut@),
            forall|i: int| 0 <= i < 16384 ==> r.lut@[i] <= MAX_14BIT,
    {
        let pts = lightness_points(lightness);
        let lut = match PointCurve::from_xml_points(pts.as_slice()) {
            Some(pc) => {
                assert(pc.points@ =~= lightness_control_points(lightness)) by {
                    assert(pts@.len() == 4);
                    assert(pc.points@[0] == lightness_control_points(lightness)[0]);
                    assert(pc.points@[1] == lightness_control_points(lightness)[1]);
                    assert(pc.points@[2] == lightness_control_points(lightness)[2]);
                    assert(pc.points@[3] == lightness_control_points(lightness)[3]);
                }
                pc.lut
            },
            None => {
                assert(false);
                Box::new([0u16; 16384])
            },
        };
        LightnessCurve { lightness, apply_sliders, lut }
    }

    /// The adjustment for a slider value and switch, with a table given with it.
    pub fn with_table(lightness: i16, apply_sliders: bool, lut: Box<[u16; 16384]>) -> (r: Self)
        ensures
            r.lightness == lightness,
            r.apply_sliders == apply_sliders,
            r.lut@ == lut@,
    {
        LightnessCurve { lightness, apply_sliders, lut }
    }

    /// Whether the adjustment does anything: sliders applied and a positive
    /// lightness.
    pub fn should_apply(&self) -> (r: bool)
        ensures
            r == (self.apply_sliders && self.lightness > 0),
    {
        self.apply_sliders && self.lightness > 0
    }

    fn lift_at(&self, pixels: &mut [u16], base: usize)
        requires
            base + 3 <= old(pixels)@.len(),
        ensures
            final(pixels)@.len() == old(pixels)@.len(),
            pixel_lifted(self.lut@, old(pixels)@, final(pixels)@, base as int),
            forall|i: int|
                0 <= i < old(pixels)@.len() && !(base <= i < base + 3) ==> final(pixels)@[i] == old(pixels)@[i],
    {
        let r: u32 = pixels[base] as u32;
        let g: u32 = pixels[base + 1] as u32;
        let b: u32 = pixels[base + 2] as u32;
        let s: u32 = r * 299 + g * 587 + b * 114;
        let l0: u32 = s / 1000;
        let luma: usize = if l0 > MAX_14BIT as u32 {
            16383
        } else {
            l0 as usize
        };
        let delta: i32 = self.lut[luma] as i32 - luma as i32;
        let nr = offset_exec(pixels[base], delta);
        let ng = offset_exec(pixels[base + 1], delta);
        let nb = offset_exec(pixels[base + 2], delta);
        pixels[base] = nr;
        pixels[base + 1] = ng;
        pixels[base + 2] = nb;
    }

    /// Lifts one pixel `[r, g, b]` in place when the adjustment applies.
    pub fn apply_rgb_chunk(&self, chunk: &mut [u16])
        requires
            old(chunk)@.len() == 3,
        ensures
            final(chunk)@.len() == 3,
            !(self.apply_sliders && self.lightness > 0) ==> final(chunk)@ == old(chunk)@,
            (self.apply_sliders && self.lightness > 0) ==> pixel_lifted(self.lut@, old(chunk)@, final(chunk)@, 0),
    {
        if !self.should_apply() {
            return;
        }
        self.lift_at(chunk, 0);
    }

    /// Lifts every complete pixel of an interleaved RGB buffer when the
    /// adjustment applies; trailing samples are left alone.
    pub fn apply_14bit_rgb(&self, pixels: &mut [u16])
        ensures
            final(pixels)@.len() == old(pixels)@.len(),
            !(self.apply_sliders && self.lightness > 0) ==> final(pixels)@ == old(pixels)@,
            (self.apply_sliders && self.lightness > 0) ==> forall|p: int|
                0 <= p < old(pixels)@.len() / 3 ==> #[trigger] pixel_lifted(
                    self.lut@,
                    old(pixels)@,
                    final(pixels)@,
                    3 * p,
                ),
            (self.apply_sliders && self.lightness > 0) ==> forall|i: int|
                3 * (old(pixels)@.len() / 3) <= i < old(pixels)@.len() ==> final(pixels)@[i] == old(pixels)@[i],
    {
        if !self.should_apply() {
            return;
        }
        let len = pixels.len();
        let n = len / 3;
        let ghost before = pixels@;
        let mut p: usize = 0;
        while p < n
            invariant
                0 <= p <= n,
                n == before.len() / 3,
                len == before.len(),
                pixels@.len() == before.len(),
                forall|q: int| 0 <= q < p ==> #[trigger] pixel_lifted(self.lut@, before, pixels@, 3 * q),
                forall|i: int| 3 * p <= i < before.len() ==> pixels@[i] == before[i],
            decreases n - p,
        {
            let ghost mid = pixels@;
            assert(3 * p + 3 <= before.len());
            self.lift_at(pixels, 3 * p);
            assert forall|q: int| 0 <= q < p + 1 implies #[trigger] pixel_lifted(
                self.lut@,
                before,
                pixels@,
                3 * q,
            ) by {
                if q < p {
                    assert(pixel_lifted(self.lut@, before, mid, 3 * q));
                }
            }
            p = p + 1;
        }
    }
}

/// A pixel lifted by one offset keeps its channel differences while no
/// channel is clamped.
pub proof fn lemma_lift_preserves_differences(lut: Seq<u16>, before: Seq<u16>, after: Seq<u16>, base: int)
    requires
        0 <= base,
        base + 3 <= before.len(),
        pixel_lifted(lut, before, after, base),
        ({
            let l = luma_14(before[base] as int, before[base + 1] as int, before[base + 2] as int);
            let delta = lut[l] - l;
            &&& 0 <= before[base] + delta <= 16383
            &&& 0 <= before[base + 1] + delta <= 16383
            &&& 0 <= before[base + 2] + delta <= 16383
        }),
    ensures
        after[base + 1] - after[base] == before[base + 1] - before[base],
        after[base + 2] - after[base + 1] == before[base + 2] - before[base + 1],
{
}

/// A lifted pixel is looked up in the table at its BT.601 luma
/// `(299 r + 587 g + 114 b) / 1000` (at most 16383), and each channel is moved
/// by the table's lift there, `lut[l] - l`, clamped to the 14-bit domain.
pub proof fn lemma_lift_at_bt601_luma(lut: Seq<u16>, before: Seq<u16>, after: Seq<u16>, base: int)
    requires
        0 <= base,
        base + 3 <= before.len(),
        pixel_lifted(lut, before, after, base),
    ensures
        ({
            let r = before[base] as int;
            let g = before[base + 1] as int;
            let b = before[base + 2] as int;
            let s = (299 * r + 587 * g + 114 * b) / 1000;
            let l = if s < 16383 { s } else { 16383 };
            let lift = lut[l] - l;
            &&& forall|k: int| 0 <= k < 3 ==> {
                let o = before[base + k] + lift;
                #[trigger] after[base + k] == if o < 0 { 0 } else if o > 16383 { 16383 } else { o }
            }
        }),
{
    let r = before[base] as int;
    let g = before[base + 1] as int;
    let b = before[base + 2] as int;
    assert(r * 299 + g * 587 + b * 114 == 299 * r + 587 * g + 114 * b);
}

/// A grey pixel is looked up at its own level, and a pixel whose channels
/// all grow is looked up no lower.
pub proof fn lemma_luma_of_grey_and_order(v: int, r: int, g: int, b: int, r2: int, g2: int, b2: int)
    requires
        0 <= v,
        0 <= r <= r2,
        0 <= g <= g2,
        0 <= b <= b2,
    ensures
        luma_14(v, v, v) == if v < 16383 { v } else { 16383 },
        luma_14(r, g, b) <= luma_14(r2, g2, b2),
{
    assert(v * 299 + v * 587 + v * 114 == v * 1000);
    assert((v * 1000) / 1000 == v) by (nonlinear_arith);
    assert(r * 299 + g * 587 + b * 114 <= r2 * 299 + g2 * 587 + b2 * 114) by (nonlinear_arith)
        requires
            0 <= r <= r2,
            0 <= g <= g2,
            0 <= b <= b2,
    ;
    vstd::arithmetic::div_mod::lemma_div_is_ordered(r * 299 + g * 587 + b * 114, r2 * 299 + g2 * 587 + b2 * 114, 1000);
}

} // verus!
