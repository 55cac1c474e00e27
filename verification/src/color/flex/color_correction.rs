//! Colour correction: a 6×6 matrix and a saturation compiled to a 3×6 matrix
//! that acts on six opponent-excess terms of each pixel.
//!
//! For a pixel `(r, g, b)` the terms are the blue, green, yellow, magenta,
//! cyan and red excesses: `max(0, b - max(r, g))`, `max(0, g - max(r, b))`,
//! `max(0, min(r, g) - b)`, `max(0, min(r, b) - g)`, `max(0, min(g, b) - r)`,
//! `max(0, r - max(g, b))`. Channel `ch` loses
//! `round(sum_k m3x6[ch][k] * term[k] / 100)` (half away from zero), clamped
//! to the 14-bit domain.
use vstd::prelude::*;

use super::curves::MAX_14BIT;

verus! {

/// The colour correction settings of an image.
#[derive(Debug, Clone)]
pub struct ColorCorrParams {
    /// The 6×6 source matrix, row-major.
    pub matrix: [[i16; 6]; 6],
    /// Saturation, nominally -100..=100.
    pub saturation: i16,
    /// Whether colour correction is asked for.
    pub apply_cc: bool,
}

/// `v` clamped to the `i16` range.
pub open spec fn clamp_i16(v: int) -> int {
    if v < -32768 {
        -32768
    } else if v > 32767 {
        32767
    } else {
        v
    }
}

fn clamp_i16_exec(v: i64) -> (r: i16)
    ensures
        r == clamp_i16(v as int),
{
    if v < -32768 {
        -32768
    } else if v > 32767 {
        32767
    } else {
        v as i16
    }
}

/// Matrix cell `(row, col)` read from a flat list: the entry at
/// `row * 6 + col` when there is one, clamped to `i16`, else 0.
pub open spec fn flat_cell(color_corr: Seq<i64>, row: int, col: int) -> i16 {
    if row * 6 + col < color_corr.len() {
        clamp_i16(color_corr[row * 6 + col] as int) as i16
    } else {
        0
    }
}

fn matrix_row(color_corr: &[i64], row: usize) -> (r: [i16; 6])
    requires
        row < 6,
    ensures
        forall|c: int| 0 <= c < 6 ==> #[trigger] r@[c] == flat_cell(color_corr@, row as int, c),
{
    let mut out = [0i16; 6];
    let mut c: usize = 0;
    while c < 6
        invariant
            0 <= c <= 6,
            row < 6,
            forall|k: int| 0 <= k < c ==> #[trigger] out@[k] == flat_cell(color_corr@, row as int, k),
        decreases 6 - c,
    {
        let idx: usize = row * 6 + c;
        if idx < color_corr.len() {
            out[c] = clamp_i16_exec(color_corr[idx]);
        } else {
            out[c] = 0;
        }
        c = c + 1;
    }
    out
}

impl ColorCorrParams {
    /// Settings from a flat list of 36 cells (row-major; missing cells are 0,
    /// extra ones ignored), a saturation and the switch; every value is
    /// clamped to `i16`.
    pub fn from_image_correction(color_corr: &[i64], saturation: i64, apply_cc: bool) -> (r: Self)
        ensures
            forall|i: int, j: int|
                0 <= i < 6 && 0 <= j < 6 ==> #[trigger] r.matrix@[i]@[j] == flat_cell(color_corr@, i, j),
            r.saturation == clamp_i16(saturation as int),
            r.apply_cc == apply_cc,
    {
        let r0 = matrix_row(color_corr, 0);
        let r1 = matrix_row(color_corr, 1);
        let r2 = matrix_row(color_corr, 2);
        let r3 = matrix_row(color_corr, 3);
        let r4 = matrix_row(color_corr, 4);
        let r5 = matrix_row(color_corr, 5);
        let matrix = [r0, r1, r2, r3, r4, r5];
        let r = ColorCorrParams { matrix, saturation: clamp_i16_exec(saturation), apply_cc };
        assert forall|i: int, j: int| 0 <= i < 6 && 0 <= j < 6 implies #[trigger] r.matrix@[i]@[j]
            == flat_cell(color_corr@, i, j) by {
            if i == 0 {
                assert(r.matrix@[i] == r0);
            } else if i == 1 {
                assert(r.matrix@[i] == r1);
            } else if i == 2 {
                assert(r.matrix@[i] == r2);
            } else if i == 3 {
                assert(r.matrix@[i] == r3);
            } else if i == 4 {
                assert(r.matrix@[i] == r4);
            } else {
                assert(r.matrix@[i] == r5);
            }
        }
        r
    }

    /// Whether the matrix differs from the neutral one, whose every cell is
    /// the negated saturation.
    pub fn is_customized(&self) -> (r: bool)
        requires
            self.saturation != i16::MIN,
        ensures
            r == exists|i: int, j: int|
                0 <= i < 6 && 0 <= j < 6 && #[trigger] self.matrix@[i]@[j] != -self.saturation,
    {
        let neg: i16 = -self.saturation;
        let mut i: usize = 0;
        while i < 6
            invariant
                0 <= i <= 6,
                neg == -self.saturation,
                forall|a: int, b: int| 0 <= a < i && 0 <= b < 6 ==> #[trigger] self.matrix@[a]@[b] == neg,
            decreases 6 - i,
        {
            let mut j: usize = 0;
            while j < 6
                invariant
                    0 <= i < 6,
                    0 <= j <= 6,
                    neg == -self.saturation,
                    forall|a: int, b: int| 0 <= a < i && 0 <= b < 6 ==> #[trigger] self.matrix@[a]@[b] == neg,
                    forall|b: int| 0 <= b < j ==> #[trigger] self.matrix@[i as int]@[b] == neg,
                decreases 6 - j,
            {
                if self.matrix[i][j] != neg {
                    return true;
                }
                j = j + 1;
            }
            i = i + 1;
        }
        false
    }

    /// Whether colour correction is applied: never, for the compiled matrix is
    /// not yet trusted.
    pub fn should_apply(&self) -> (r: bool)
        ensures
            !r,
    {
        false
    }
}

/// The compiled colour correction used by the pipeline.
pub struct ColorCorrection {
    /// The 3×6 compiled matrix, one row per output channel.
    pub m3x6: [[i16; 6]; 3],
    /// Whether it is applied.
    pub enabled: bool,
}

/// Compiled cell `k` (equal for every output row): cells 3, 1 and 2 of source
/// row `k`, plus the saturation for `k` in 1..=3, clamped to `i16`.
pub open spec fn compiled_cell(matrix: [[i16; 6]; 6], saturation: i16, k: int) -> i16 {
    clamp_i16(
        matrix@[k]@[3] + matrix@[k]@[1] + matrix@[k]@[2] + (if 1 <= k <= 3 {
            saturation as int
        } else {
            0
        }),
    ) as i16
}

/// The six opponent-excess terms of a pixel.
pub open spec fn chroma_terms(r: int, g: int, b: int) -> Seq<int> {
    seq![
        vstd::math::max(0, b - vstd::math::max(r, g)),
        vstd::math::max(0, g - vstd::math::max(r, b)),
        vstd::math::max(0, vstd::math::min(r, g) - b),
        vstd::math::max(0, vstd::math::min(r, b) - g),
        vstd::math::max(0, vstd::math::min(g, b) - r),
        vstd::math::max(0, r - vstd::math::max(g, b)),
    ]
}

/// `s / 100` rounded half away from zero.
pub open spec fn round_div_100(s: int) -> int {
    if s >= 0 {
        (s + 50) / 100
    } else {
        -((-s + 50) / 100)
    }
}

/// Channel value `v` after correction with compiled row `row` on pixel `(r, g, b)`.
pub open spec fn corrected_channel(row: [i16; 6], r: int, g: int, b: int, v: int) -> u16 {
    let c = chroma_terms(r, g, b);
    let s = row@[0] * c[0] + row@[1] * c[1] + row@[2] * c[2] + row@[3] * c[3] + row@[4] * c[4]
        + row@[5] * c[5];
    let out = v - round_div_100(s);
    if out < 0 {
        0
    } else if out > 16383 {
        16383
    } else {
        out as u16
    }
}

/// Whether `after` is `before` with the pixel at `base` corrected.
pub open spec fn pixel_corrected(m3x6: [[i16; 6]; 3], before: Seq<u16>, after: Seq<u16>, base: int) -> bool {
    let r = before[base] as int;
    let g = before[base + 1] as int;
    let b = before[base + 2] as int;
    &&& after[base] == corrected_channel(m3x6@[0], r, g, b, r)
    &&& after[base + 1] == corrected_channel(m3x6@[1], r, g, b, g)
    &&& after[base + 2] == corrected_channel(m3x6@[2], r, g, b, b)
}

fn max_i64(a: i64, b: i64) -> (r: i64)
    ensures
        r == vstd::math::max(a as int, b as int),
{
    if a >= b {
        a
    } else {
        b
    }
}

fn min_i64(a: i64, b: i64) -> (r: i64)
    ensures
        r == vstd::math::min(a as int, b as int),
{
    if a <= b {
        a
    } else {
        b
    }
}

fn corrected_channel_exec(row: &[i16; 6], r: i64, g: i64, b: i64, v: i64) -> (out: u16)
    requires
        0 <= r <= 65535,
        0 <= g <= 65535,
        0 <= b <= 65535,
        0 <= v <= 65535,
    ensures
        out == corrected_channel(*row, r as int, g as int, b as int, v as int),
{
    let ghost c = chroma_terms(r as int, g as int, b as int);
    let c0 = max_i64(0, b - max_i64(r, g));
    let c1 = max_i64(0, g - max_i64(r, b));
    let c2 = max_i64(0, min_i64(r, g) - b);
    let c3 = max_i64(0, min_i64(r, b) - g);
    let c4 = max_i64(0, min_i64(g, b) - r);
    let c5 = max_i64(0, r - max_i64(g, b));
    assert(c[0] == c0 && c[1] == c1 && c[2] == c2 && c[3] == c3 && c[4] == c4 && c[5] == c5);
    let mut s: i64 = 0;
    let terms: [i64; 6] = [c0, c1, c2, c3, c4, c5];
    let mut k: usize = 0;
    while k < 6
        invariant
            0 <= k <= 6,
            forall|j: int| 0 <= j < 6 ==> 0 <= #[trigger] terms@[j] <= 65535,
            terms@ == seq![c0, c1, c2, c3, c4, c5],
            -2147450880 * k <= s <= 2147450880 * k,
            s == partial_sum(row@, terms@, k as int),
        decreases 6 - k,
    {
        let w: i64 = row[k] as i64;
        let t: i64 = terms[k];
        assert(-2147450880 <= w * t <= 2147450880) by (nonlinear_arith)
            requires
                -32768 <= w <= 32767,
                0 <= t <= 65535,
        ;
        s = s + w * t;
        k = k + 1;
    }
    assert(s == row@[0] * c[0] + row@[1] * c[1] + row@[2] * c[2] + row@[3] * c[3] + row@[4] * c[4]
        + row@[5] * c[5]) by {
        reveal_with_fuel(partial_sum, 7);
    }
    let delta: i64 = if s >= 0 {
        (s + 50) / 100
    } else {
        -((-s + 50) / 100)
    };
    let out: i64 = v - delta;
    if out < 0 {
        0
    } else if out > MAX_14BIT as i64 {
        MAX_14BIT
    } else {
        out as u16
    }
}

/// `sum_{j < k} row[j] * terms[j]`.
pub open spec fn partial_sum(row: Seq<i16>, terms: Seq<i64>, k: int) -> int
    decreases k,
{
    if k <= 0 {
        0
    } else {
        partial_sum(row, terms, k - 1) + row[k - 1] * terms[k - 1]
    }
}

impl ColorCorrection {
    /// The compiled form of `params`: every output row holds the compiled
    /// cells; it is enabled when `params.should_apply()` holds.
    pub fn compile(params: &ColorCorrParams) -> (r: Self)
        ensures
            forall|o: int, k: int|
                0 <= o < 3 && 0 <= k < 6 ==> #[trigger] r.m3x6@[o]@[k] == compiled_cell(
                    params.matrix,
                    params.saturation,
                    k,
                ),
            !r.enabled,
    {
        let enabled = params.should_apply();
        let m = &params.matrix;
        let sat: i64 = params.saturation as i64;
        let mut row = [0i16; 6];
        let mut k: usize = 0;
        while k < 6
            invariant
                0 <= k <= 6,
                sat == params.saturation,
                *m == params.matrix,
                forall|j: int| 0 <= j < k ==> #[trigger] row@[j] == compiled_cell(params.matrix, params.saturation, j),
            decreases 6 - k,
        {
            let sum: i64 = m[k][3] as i64 + m[k][1] as i64 + m[k][2] as i64;
            let sat_add: i64 = if k >= 1 && k <= 3 {
                sat
            } else {
                0
            };
            row[k] = clamp_i16_exec(sum + sat_add);
            k = k + 1;
        }
        let m3x6 = [row, row, row];
        let r = ColorCorrection { m3x6, enabled };
        assert forall|o: int, k: int| 0 <= o < 3 && 0 <= k < 6 implies #[trigger] r.m3x6@[o]@[k]
            == compiled_cell(params.matrix, params.saturation, k) by {
            assert(r.m3x6@[o] == row);
        }
        r
    }

    /// Same as `compile`.
    pub fn from_params(params: &ColorCorrParams) -> (r: Self)
        ensures
            forall|o: int, k: int|
                0 <= o < 3 && 0 <= k < 6 ==> #[trigger] r.m3x6@[o]@[k] == compiled_cell(
                    params.matrix,
                    params.saturation,
                    k,
                ),
            !r.enabled,
    {
        Self::compile(params)
    }

    /// The switched-off correction with a zero matrix.
    pub fn disabled() -> (r: Self)
        ensures
            forall|o: int, k: int| 0 <= o < 3 && 0 <= k < 6 ==> #[trigger] r.m3x6@[o]@[k] == 0,
            !r.enabled,
    {
        let r = ColorCorrection { m3x6: [[0i16; 6]; 3], enabled: false };
        assert forall|o: int, k: int| 0 <= o < 3 && 0 <= k < 6 implies #[trigger] r.m3x6@[o]@[k] == 0 by {
            assert(r.m3x6@[o]@[k] == 0);
        }
        r
    }

    /// Corrects one pixel `[r, g, b]` in place; a switched-off correction
    /// leaves it alone.
    pub fn apply_rgb_chunk(&self, chunk: &mut [u16])
        requires
            old(chunk)@.len() == 3,
        ensures
            final(chunk)@.len() == 3,
            !self.enabled ==> final(chunk)@ == old(chunk)@,
            self.enabled ==> pixel_corrected(self.m3x6, old(chunk)@, final(chunk)@, 0),
    {
        if !self.enabled {
            return;
        }
        self.correct_at(chunk, 0);
    }

    fn correct_at(&self, pixels: &mut [u16], base: usize)
        requires
            base + 3 <= old(pixels)@.len(),
        ensures
            final(pixels)@.len() == old(pixels)@.len(),
            pixel_corrected(self.m3x6, old(pixels)@, final(pixels)@, base as int),
            forall|i: int|
                0 <= i < old(pixels)@.len() && !(base <= i < base + 3) ==> final(pixels)@[i] == old(pixels)@[i],
    {
        let r: i64 = pixels[base] as i64;
        let g: i64 = pixels[base + 1] as i64;
        let b: i64 = pixels[base + 2] as i64;
        let nr = corrected_channel_exec(&self.m3x6[0], r, g, b, r);
        let ng = corrected_channel_exec(&self.m3x6[1], r, g, b, g);
        let nb = corrected_channel_exec(&self.m3x6[2], r, g, b, b);
        pixels[base] = nr;
        pixels[base + 1] = ng;
        pixels[base + 2] = nb;
    }

    /// Corrects every complete pixel of an interleaved RGB buffer; trailing
    /// samples that do not fill a pixel are left alone, and so is everything
    /// when the correction is switched off.
    pub fn apply_14bit_rgb(&self, pixels: &mut [u16])
        ensures
            final(pixels)@.len() == old(pixels)@.len(),
            !self.enabled ==> final(pixels)@ == old(pixels)@,
            self.enabled ==> forall|p: int|
                0 <= p < old(pixels)@.len() / 3 ==> #[trigger] pixel_corrected(
                    self.m3x6,
                    old(pixels)@,
                    final(pixels)@,
                    3 * p,
                ),
            self.enabled ==> forall|i: int|
                3 * (old(pixels)@.len() / 3) <= i < old(pixels)@.len() ==> final(pixels)@[i] == old(pixels)@[i],
    {
        if !self.enabled {
            return;
        }
        let len = pixels.len();
        let n = len / 3;
        let ghost before = pixels@;
        let mut p: usize = 0;
        while p < n
            invariant
                0 <= p <= n,
                n == before.len() / 3,
                len == before.len(),
                pixels@.len() == before.len(),
                forall|q: int| 0 <= q < p ==> #[trigger] pixel_corrected(self.m3x6, before, pixels@, 3 * q),
                forall|i: int| 3 * p <= i < before.len() ==> pixels@[i] == before[i],
            decreases n - p,
        {
            let ghost mid = pixels@;
            assert(3 * p + 3 <= before.len());
            self.correct_at(pixels, 3 * p);
            assert forall|q: int| 0 <= q < p + 1 implies #[trigger] pixel_corrected(
                self.m3x6,
                before,
                pixels@,
                3 * q,
            ) by {
                if q < p {
                    assert(pixel_corrected(self.m3x6, before, mid, 3 * q));
                }
            }
            p = p + 1;
        }
    }
}

/// A grey pixel has no opponent-excess terms, so correction leaves every
/// channel of it unchanged, whatever the matrix.
pub proof fn lemma_gray_pixel_unchanged(row: [i16; 6], v: int)
    requires
        0 <= v <= 16383,
    ensures
        corrected_channel(row, v, v, v, v) == v,
{
    let c = chroma_terms(v, v, v);
    assert(c[0] == 0 && c[1] == 0 && c[2] == 0 && c[3] == 0 && c[4] == 0 && c[5] == 0);
    let s = row@[0] * c[0] + row@[1] * c[1] + row@[2] * c[2] + row@[3] * c[3] + row@[4] * c[4]
        + row@[5] * c[5];
    assert(s == 0) by (nonlinear_arith)
        requires
            s == row@[0] * c[0] + row@[1] * c[1] + row@[2] * c[2] + row@[3] * c[3] + row@[4] * c[4]
                + row@[5] * c[5],
            c[0] == 0 && c[1] == 0 && c[2] == 0 && c[3] == 0 && c[4] == 0 && c[5] == 0,
    ;
}

} // verus!
