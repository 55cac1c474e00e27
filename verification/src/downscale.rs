//! Nearest-neighbour reduction of an uncompressed RGB image, read straight
//! from the file bytes: every `factor`-th pixel of every `factor`-th row,
//! where `factor` is the smallest whole number that brings both sides to
//! at most `max_dim` pixels.

use vstd::prelude::*;
use crate::tiff::{
    ByteOrder, Ifd, IfdV, PixelData, PixelDataV, RgbPixels, RgbPixelsV, TiffFile, TagValueV,
    ifds_view, is_largest_candidate, largest_candidate, read_u16_at, spec_as_u32_vec, spec_ifd_get,
    spec_ifd_get_u32, spec_is_rgb_candidate, spec_u16_at, u32_or,
};

verus! {

/// `a / b` rounded up (for positive `b`).
pub open spec fn ceil_div(a: int, b: int) -> int {
    (a + b - 1) / b
}

/// The sampling step: 1 when both sides fit in `m`, otherwise the larger of
/// the two rounded-up ratios side / `m`. A bound of 0 is exceeded without
/// limit: the step then passes every side, so one pixel, the first, is kept.
pub open spec fn spec_factor(w: int, h: int, m: int) -> int {
    if m <= 0 {
        let g = if w > h { w } else { h };
        if g > 1 { g } else { 1 }
    } else if w > m || h > m {
        let fw = ceil_div(w, m);
        let fh = ceil_div(h, m);
        let g = if fw > fh { fw } else { fh };
        if g > 1 { g } else { 1 }
    } else {
        1
    }
}

/// Byte offsets of the image rows: each strip (StripOffsets paired with
/// StripByteCounts, `k` pairs) holds `count / row_bytes` whole rows; strips
/// are taken until at least `height` rows are known.
pub open spec fn spec_row_starts(offs: Seq<u32>, counts: Seq<u32>, row_bytes: int, height: int, k: nat) -> Seq<int>
    decreases k,
{
    if k == 0 {
        seq![]
    } else {
        let prev = spec_row_starts(offs, counts, row_bytes, height, (k - 1) as nat);
        if k > 1 && prev.len() >= height {
            prev
        } else {
            prev + Seq::new(((counts[k - 1] as int) / row_bytes) as nat, |r: int| offs[k - 1] + r * row_bytes)
        }
    }
}

/// Offset of row `y`; rows past the known ones start at offset 0.
pub open spec fn row_start(rows: Seq<int>, y: int) -> int {
    if y < rows.len() { rows[y] } else { 0 }
}

/// Channel `ch` of output pixel (`x`, `y`) for 8-bit samples: the source
/// pixel (`x·f`, `y·f`); 0 where it lies outside the image or the data.
pub open spec fn spec_sample8(d: Seq<u8>, rows: Seq<int>, f: int, w: int, h: int, y: int, x: int, ch: int) -> u8 {
    let sy = y * f;
    let sx = x * f;
    if sy < h && sx < w {
        let i = row_start(rows, sy) + sx * 3 + ch;
        if i < d.len() { d[i] } else { 0 }
    } else {
        0
    }
}

/// As `spec_sample8`, for 16-bit samples in the file's byte order.
pub open spec fn spec_sample16(d: Seq<u8>, bo: ByteOrder, rows: Seq<int>, f: int, w: int, h: int, y: int, x: int, ch: int) -> u16 {
    let sy = y * f;
    let sx = x * f;
    if sy < h && sx < w {
        let b = row_start(rows, sy) + sx * 6 + ch * 2;
        if b + 1 < d.len() { spec_u16_at(d, b, bo) } else { 0 }
    } else {
        0
    }
}

/// The reduced image of an IFD: `None` when a dimension or strip tag is
/// missing, a strip list is empty, the sample size is neither 8 nor 16 bits
/// (default 8), or the output does not fit in memory addresses. Output
/// samples are laid out row by row, three per pixel.
pub open spec fn spec_downscaled(d: Seq<u8>, bo: ByteOrder, ifd: IfdV, m: int) -> Option<RgbPixelsV> {
    let wo = spec_ifd_get_u32(ifd, 0x0100);
    let ho = spec_ifd_get_u32(ifd, 0x0101);
    let ov = spec_ifd_get(ifd, 0x0111);
    let cv = spec_ifd_get(ifd, 0x0117);
    if wo is None || ho is None || ov is None || cv is None {
        None
    } else {
        let w = wo.unwrap() as int;
        let h = ho.unwrap() as int;
        let bps = u32_or(spec_ifd_get_u32(ifd, 0x0102), 8);
        let offs = spec_as_u32_vec(ov.unwrap());
        let counts = spec_as_u32_vec(cv.unwrap());
        let k = if offs.len() < counts.len() { offs.len() } else { counts.len() };
        let rb = w * (if bps == 16 { 6int } else { 3int });
        let f = spec_factor(w, h, m);
        let ow = ceil_div(w, f);
        let oh = ceil_div(h, f);
        let rl = ow * 3;
        let n = rl * oh;
        let rows = spec_row_starts(offs, counts, rb, h, k);
        if offs.len() == 0 || counts.len() == 0 || (bps != 8 && bps != 16) || n > usize::MAX {
            None
        } else if bps == 8 {
            Some(RgbPixelsV {
                width: ow as u32,
                height: oh as u32,
                data: PixelDataV::Rgb8(Seq::new(n as nat, |i: int| spec_sample8(d, rows, f, w, h, i / rl, (i % rl) / 3, (i % rl) % 3))),
            })
        } else {
            Some(RgbPixelsV {
                width: ow as u32,
                height: oh as u32,
                data: PixelDataV::Rgb16(Seq::new(n as nat, |i: int| spec_sample16(d, bo, rows, f, w, h, i / rl, (i % rl) / 3, (i % rl) % 3))),
            })
        }
    }
}

proof fn lemma_ceil_div_bounds(a: int, b: int)
    requires
        a >= 1,
        b >= 1,
    ensures
        1 <= ceil_div(a, b) <= a,
{
    assert((a + b - 1) / b >= 1) by (nonlinear_arith)
        requires a >= 1, b >= 1;
    assert((a + b - 1) / b <= a) by (nonlinear_arith)
        requires a >= 1, b >= 1;
}

proof fn lemma_ceil_div_covers(a: int, b: int)
    requires
        a >= 0,
        b >= 1,
    ensures
        ceil_div(a, b) * b >= a,
{
    let q = (a + b - 1) / b;
    let r = (a + b - 1) % b;
    vstd::arithmetic::div_mod::lemma_fundamental_div_mod(a + b - 1, b);
    vstd::arithmetic::div_mod::lemma_mod_bound(a + b - 1, b);
    assert(q * b == a + b - 1 - r) by (nonlinear_arith)
        requires a + b - 1 == b * q + r;
}

proof fn lemma_ceil_div_at_most(a: int, f: int, m: int)
    requires
        a >= 0,
        f >= 1,
        m >= 0,
        f * m >= a,
    ensures
        ceil_div(a, f) <= m,
{
    vstd::arithmetic::div_mod::lemma_fundamental_div_mod(a + f - 1, f);
    vstd::arithmetic::div_mod::lemma_mod_bound(a + f - 1, f);
    let q = (a + f - 1) / f;
    let r = (a + f - 1) % f;
    assert(q <= m) by (nonlinear_arith)
        requires a + f - 1 == f * q + r, 0 <= r < f, f * m >= a, f >= 1;
}

/// A reduced image is at most `m` pixels wide and at most `m` pixels high.
pub proof fn lemma_downscaled_fits(d: Seq<u8>, bo: ByteOrder, ifd: IfdV, m: int)
    requires
        m > 0,
    ensures
        spec_downscaled(d, bo, ifd, m) matches Some(p) ==> p.width <= m && p.height <= m,
{
    if let Some(p) = spec_downscaled(d, bo, ifd, m) {
        let w = spec_ifd_get_u32(ifd, 0x0100).unwrap() as int;
        let h = spec_ifd_get_u32(ifd, 0x0101).unwrap() as int;
        let f = spec_factor(w, h, m);
        if w > m || h > m {
            lemma_ceil_div_covers(w, m);
            lemma_ceil_div_covers(h, m);
            let fw = ceil_div(w, m);
            let fh = ceil_div(h, m);
            assert(f >= fw && f >= fh && f >= 1);
            assert(f * m >= w) by (nonlinear_arith)
                requires f >= fw, fw * m >= w, m > 0;
            assert(f * m >= h) by (nonlinear_arith)
                requires f >= fh, fh * m >= h, m > 0;
        } else {
            assert(f * m >= w && f * m >= h);
        }
        lemma_ceil_div_at_most(w, f, m);
        lemma_ceil_div_at_most(h, f, m);
        assert(ceil_div(w, f) <= w) by {
            if w > 0 {
                lemma_ceil_div_bounds(w, f);
            } else {
                assert(ceil_div(0, f) == (f - 1) / f);
                assert((f - 1) / f == 0) by (nonlinear_arith)
                    requires f >= 1;
            }
        }
        assert(ceil_div(h, f) <= h) by {
            if h > 0 {
                lemma_ceil_div_bounds(h, f);
            } else {
                assert((f - 1) / f == 0) by (nonlinear_arith)
                    requires f >= 1;
            }
        }
    }
}

fn factor_of(w: u32, h: u32, m: u32) -> (f: u64)
    requires
        w > 0,
        h > 0,
    ensures
        f == spec_factor(w as int, h as int, m as int),
        1 <= f <= 0xFFFF_FFFF,
{
    if m == 0 {
        let g: u64 = if w > h { w as u64 } else { h as u64 };
        return if g > 1 { g } else { 1 };
    }
    proof {
        lemma_ceil_div_bounds(w as int, m as int);
        lemma_ceil_div_bounds(h as int, m as int);
    }
    if w > m || h > m {
        let fw = (w as u64 + m as u64 - 1) / m as u64;
        let fh = (h as u64 + m as u64 - 1) / m as u64;
        let g = if fw > fh { fw } else { fh };
        if g > 1 { g } else { 1 }
    } else {
        1
    }
}

/// Row offsets of the strips, as `spec_row_starts`.
fn row_starts(offs: &Vec<u32>, counts: &Vec<u32>, row_bytes: u64, height: u64) -> (r: Vec<u64>)
    requires
        row_bytes > 0,
    ensures
        r@.len() == spec_row_starts(offs@, counts@, row_bytes as int, height as int,
            if offs@.len() < counts@.len() { offs@.len() } else { counts@.len() }).len(),
        forall|i: int| 0 <= i < r@.len() ==> #[trigger] r@[i] as int == spec_row_starts(offs@, counts@, row_bytes as int,
            height as int, if offs@.len() < counts@.len() { offs@.len() } else { counts@.len() })[i],
        forall|i: int| 0 <= i < r@.len() ==> #[trigger] r@[i] <= 0x2_0000_0000,
{
    let k = if offs.len() < counts.len() { offs.len() } else { counts.len() };
    let mut out: Vec<u64> = Vec::new();
    let mut s: usize = 0;
    while s < k
        invariant
            s <= k,
            k <= offs@.len(),
            k <= counts@.len(),
            row_bytes > 0,
            out@.len() == spec_row_starts(offs@, counts@, row_bytes as int, height as int, s as nat).len(),
            forall|i: int| 0 <= i < out@.len() ==> #[trigger] out@[i] as int == spec_row_starts(offs@, counts@,
                row_bytes as int, height as int, s as nat)[i],
            forall|i: int| 0 <= i < out@.len() ==> #[trigger] out@[i] <= 0x2_0000_0000,
        decreases k - s,
    {
        let ghost prev = spec_row_starts(offs@, counts@, row_bytes as int, height as int, s as nat);
        if s > 0 && out.len() as u64 >= height {
            assert(spec_row_starts(offs@, counts@, row_bytes as int, height as int, (s + 1) as nat) == prev);
        } else {
            let o = offs[s] as u64;
            let c = counts[s] as u64;
            let nrows = c / row_bytes;
            let ghost base = out@;
            let mut r: u64 = 0;
            while r < nrows
                invariant
                    r <= nrows,
                    nrows == c / row_bytes,
                    row_bytes > 0,
                    c <= 0xFFFF_FFFF,
                    o <= 0xFFFF_FFFF,
                    out@.len() == base.len() + r,
                    forall|i: int| 0 <= i < base.len() ==> #[trigger] out@[i] == base[i],
                    forall|j: int| 0 <= j < r ==> #[trigger] out@[base.len() + j] as int == o + j * row_bytes,
                    forall|i: int| 0 <= i < out@.len() ==> #[trigger] out@[i] <= 0x2_0000_0000,
                decreases nrows - r,
            {
                assert(r * row_bytes <= c) by (nonlinear_arith)
                    requires r < nrows, nrows == c / row_bytes, row_bytes > 0;
                out.push(o + r * row_bytes);
                r = r + 1;
            }
            proof {
                let ext = Seq::new(nrows as nat, |j: int| offs@[s as int] + j * row_bytes);
                let next = spec_row_starts(offs@, counts@, row_bytes as int, height as int, (s + 1) as nat);
                assert(next == prev + ext);
                assert forall|i: int| 0 <= i < out@.len() implies #[trigger] out@[i] as int == next[i] by {
                    if i >= base.len() {
                        assert(out@[base.len() + (i - base.len())] as int == o + (i - base.len()) * row_bytes);
                    }
                }
            }
        }
        s = s + 1;
    }
    out
}

proof fn lemma_out_index(y: int, x: int, ch: int, ow: int)
    requires
        0 <= y,
        0 <= x < ow,
        0 <= ch < 3,
    ensures
        (y * (ow * 3) + x * 3 + ch) / (ow * 3) == y,
        (y * (ow * 3) + x * 3 + ch) % (ow * 3) == x * 3 + ch,
        (x * 3 + ch) / 3 == x,
        (x * 3 + ch) % 3 == ch,
{
    vstd::arithmetic::div_mod::lemma_fundamental_div_mod_converse(y * (ow * 3) + x * 3 + ch, ow * 3, y, x * 3 + ch);
    vstd::arithmetic::div_mod::lemma_fundamental_div_mod_converse(x * 3 + ch, 3, x, ch);
}

/// The value at output index `i` of `spec_downscaled`'s 8-bit samples.
pub open spec fn at8(d: Seq<u8>, rows: Seq<int>, f: int, w: int, h: int, rl: int, i: int) -> u8 {
    spec_sample8(d, rows, f, w, h, i / rl, (i % rl) / 3, (i % rl) % 3)
}

/// The value at output index `i` of `spec_downscaled`'s 16-bit samples.
pub open spec fn at16(d: Seq<u8>, bo: ByteOrder, rows: Seq<int>, f: int, w: int, h: int, rl: int, i: int) -> u16 {
    spec_sample16(d, bo, rows, f, w, h, i / rl, (i % rl) / 3, (i % rl) % 3)
}

#[verifier::rlimit(40)]
fn sample8(d: &[u8], rows: &Vec<u64>, f: u64, w: u64, h: u64, y: u64, x: u64, ch: u64) -> (v: u8)
    requires
        f >= 1,
        f <= 0xFFFF_FFFF,
        w <= 0xFFFF_FFFF,
        h <= 0xFFFF_FFFF,
        y <= 0xFFFF_FFFF,
        x <= 0xFFFF_FFFF,
        ch < 3,
        forall|i: int| 0 <= i < rows@.len() ==> #[trigger] rows@[i] <= 0x2_0000_0000,
    ensures
        v == spec_sample8(d@, rows@.map_values(|v: u64| v as int), f as int, w as int, h as int, y as int, x as int, ch as int),
{
    let ghost rv = rows@.map_values(|v: u64| v as int);
    assert(y * f <= 0xFFFF_FFFF * 0xFFFF_FFFF) by (nonlinear_arith)
        requires y <= 0xFFFF_FFFF, f <= 0xFFFF_FFFF;
    assert(x * f <= 0xFFFF_FFFF * 0xFFFF_FFFF) by (nonlinear_arith)
        requires x <= 0xFFFF_FFFF, f <= 0xFFFF_FFFF;
    let sy = y * f;
    let sx = x * f;
    if sy < h && sx < w {
        let rs: u64 = if sy < rows.len() as u64 { rows[sy as usize] } else { 0 };
        assert(rs as int == row_start(rv, sy as int));
        let i = rs + sx * 3 + ch;
        if i < d.len() as u64 { d[i as usize] } else { 0 }
    } else {
        0
    }
}

#[verifier::rlimit(40)]
fn sample16(d: &[u8], bo: ByteOrder, rows: &Vec<u64>, f: u64, w: u64, h: u64, y: u64, x: u64, ch: u64) -> (v: u16)
    requires
        f >= 1,
        f <= 0xFFFF_FFFF,
        w <= 0xFFFF_FFFF,
        h <= 0xFFFF_FFFF,
        y <= 0xFFFF_FFFF,
        x <= 0xFFFF_FFFF,
        ch < 3,
        forall|i: int| 0 <= i < rows@.len() ==> #[trigger] rows@[i] <= 0x2_0000_0000,
    ensures
        v == spec_sample16(d@, bo, rows@.map_values(|v: u64| v as int), f as int, w as int, h as int, y as int, x as int, ch as int),
{
    let ghost rv = rows@.map_values(|v: u64| v as int);
    assert(y * f <= 0xFFFF_FFFF * 0xFFFF_FFFF) by (nonlinear_arith)
        requires y <= 0xFFFF_FFFF, f <= 0xFFFF_FFFF;
    assert(x * f <= 0xFFFF_FFFF * 0xFFFF_FFFF) by (nonlinear_arith)
        requires x <= 0xFFFF_FFFF, f <= 0xFFFF_FFFF;
    let sy = y * f;
    let sx = x * f;
    if sy < h && sx < w {
        let rs: u64 = if sy < rows.len() as u64 { rows[sy as usize] } else { 0 };
        assert(rs as int == row_start(rv, sy as int));
        let b = rs + sx * 6 + ch * 2;
        if b + 1 < d.len() as u64 { read_u16_at(d, b as usize, bo) } else { 0 }
    } else {
        0
    }
}

fn decode_ifd_downscaled(d: &[u8], bo: ByteOrder, ifd: &Ifd, max_dim: u32) -> (r: Option<RgbPixels>)
    requires
        spec_is_rgb_candidate(ifd@),
    ensures
        (match r { Some(p) => Some(p@), None => None }) == spec_downscaled(d@, bo, ifd@, max_dim as int),
{
    let w = match ifd.get_u32(0x0100) { Some(v) => v, None => return None };
    let h = match ifd.get_u32(0x0101) { Some(v) => v, None => return None };
    let bps = match ifd.get_u32(0x0102) { Some(v) => v, None => 8 };
    let ov = match ifd.get(0x0111) { Some(v) => v, None => return None };
    let cv = match ifd.get(0x0117) { Some(v) => v, None => return None };
    let offs = ov.as_u32_vec();
    let counts = cv.as_u32_vec();
    if offs.len() == 0 || counts.len() == 0 || (bps != 8 && bps != 16) {
        return None;
    }
    let rb: u64 = w as u64 * (if bps == 16 { 6 } else { 3 });
    let f = factor_of(w, h, max_dim);
    let ow: u64 = (w as u64 + f - 1) / f;
    let oh: u64 = (h as u64 + f - 1) / f;
    proof {
        lemma_ceil_div_bounds(w as int, f as int);
        lemma_ceil_div_bounds(h as int, f as int);
    }
    let rl: u64 = ow * 3;
    let n: u64 = match rl.checked_mul(oh) { Some(n) => n, None => return None };
    if n > usize::MAX as u64 {
        return None;
    }
    let rows = row_starts(&offs, &counts, rb, h as u64);
    let ghost rv = rows@.map_values(|v: u64| v as int);
    let ghost k = if offs@.len() < counts@.len() { offs@.len() } else { counts@.len() };
    proof {
        assert(rv =~= spec_row_starts(offs@, counts@, rb as int, h as int, k));
    }
    if bps == 8 {
        let mut out: Vec<u8> = Vec::new();
        let mut y: u64 = 0;
        while y < oh
            invariant
                y <= oh,
                oh <= h,
                ow <= w,
                rl == ow * 3,
                1 <= f <= 0xFFFF_FFFF,
                out@.len() == y * rl,
                rv == rows@.map_values(|v: u64| v as int),
                forall|i: int| 0 <= i < rows@.len() ==> #[trigger] rows@[i] <= 0x2_0000_0000,
                forall|i: int| 0 <= i < out@.len() ==> #[trigger] out@[i] == at8(d@, rv, f as int, w as int, h as int, rl as int, i),
            decreases oh - y,
        {
            let mut x: u64 = 0;
            while x < ow
                invariant
                    x <= ow,
                    y < oh,
                    oh <= h,
                    ow <= w,
                    rl == ow * 3,
                    1 <= f <= 0xFFFF_FFFF,
                    out@.len() == y * rl + x * 3,
                    rv == rows@.map_values(|v: u64| v as int),
                    forall|i: int| 0 <= i < rows@.len() ==> #[trigger] rows@[i] <= 0x2_0000_0000,
                    forall|i: int| 0 <= i < out@.len() ==> #[trigger] out@[i] == at8(d@, rv, f as int, w as int, h as int, rl as int, i),
                decreases ow - x,
            {
                let s0 = sample8(d, &rows, f, w as u64, h as u64, y, x, 0);
                let s1 = sample8(d, &rows, f, w as u64, h as u64, y, x, 1);
                let s2 = sample8(d, &rows, f, w as u64, h as u64, y, x, 2);
                let ghost before = out@;
                out.push(s0);
                out.push(s1);
                out.push(s2);
                proof {
                    let ghost l = y * rl + x * 3;
                    assert(out@ =~= before + seq![s0, s1, s2]);
                    lemma_out_index(y as int, x as int, 0, ow as int);
                    lemma_out_index(y as int, x as int, 1, ow as int);
                    lemma_out_index(y as int, x as int, 2, ow as int);
                    assert(y * rl == y * (ow * 3));
                    assert(out@[l] == at8(d@, rv, f as int, w as int, h as int, rl as int, l));
                    assert(out@[l + 1] == at8(d@, rv, f as int, w as int, h as int, rl as int, l + 1));
                    assert(out@[l + 2] == at8(d@, rv, f as int, w as int, h as int, rl as int, l + 2));
                }
                x = x + 1;
            }
            assert(y * rl + ow * 3 == (y + 1) * rl) by (nonlinear_arith)
                requires rl == ow * 3;
            y = y + 1;
        }
        assert(oh * rl == rl * oh) by (nonlinear_arith);
        assert(out@.len() == n);
        let ghost spec_rows = spec_row_starts(offs@, counts@, rb as int, h as int, k);
        assert(out@ =~= Seq::new(n as nat, |i: int| spec_sample8(d@, spec_rows, f as int, w as int, h as int,
            i / (rl as int), (i % (rl as int)) / 3, (i % (rl as int)) % 3)));
        Some(RgbPixels { width: ow as u32, height: oh as u32, data: PixelData::Rgb8(out) })
    } else {
        let mut out: Vec<u16> = Vec::new();
        let mut y: u64 = 0;
        while y < oh
            invariant
                y <= oh,
                oh <= h,
                ow <= w,
                rl == ow * 3,
                1 <= f <= 0xFFFF_FFFF,
                out@.len() == y * rl,
                rv == rows@.map_values(|v: u64| v as int),
                forall|i: int| 0 <= i < rows@.len() ==> #[trigger] rows@[i] <= 0x2_0000_0000,
                forall|i: int| 0 <= i < out@.len() ==> #[trigger] out@[i] == at16(d@, bo, rv, f as int, w as int, h as int, rl as int, i),
            decreases oh - y,
        {
            let mut x: u64 = 0;
            while x < ow
                invariant
                    x <= ow,
                    y < oh,
                    oh <= h,
                    ow <= w,
                    rl == ow * 3,
                    1 <= f <= 0xFFFF_FFFF,
                    out@.len() == y * rl + x * 3,
                    rv == rows@.map_values(|v: u64| v as int),
                    forall|i: int| 0 <= i < rows@.len() ==> #[trigger] rows@[i] <= 0x2_0000_0000,
                    forall|i: int| 0 <= i < out@.len() ==> #[trigger] out@[i] == at16(d@, bo, rv, f as int, w as int, h as int, rl as int, i),
                decreases ow - x,
            {
                let s0 = sample16(d, bo, &rows, f, w as u64, h as u64, y, x, 0);
                let s1 = sample16(d, bo, &rows, f, w as u64, h as u64, y, x, 1);
                let s2 = sample16(d, bo, &rows, f, w as u64, h as u64, y, x, 2);
                let ghost before = out@;
                out.push(s0);
                out.push(s1);
                out.push(s2);
                proof {
                    let ghost l = y * rl + x * 3;
                    assert(out@ =~= before + seq![s0, s1, s2]);
                    lemma_out_index(y as int, x as int, 0, ow as int);
                    lemma_out_index(y as int, x as int, 1, ow as int);
                    lemma_out_index(y as int, x as int, 2, ow as int);
                    assert(y * rl == y * (ow * 3));
                    assert(out@[l] == at16(d@, bo, rv, f as int, w as int, h as int, rl as int, l));
                    assert(out@[l + 1] == at16(d@, bo, rv, f as int, w as int, h as int, rl as int, l + 1));
                    assert(out@[l + 2] == at16(d@, bo, rv, f as int, w as int, h as int, rl as int, l + 2));
                }
                x = x + 1;
            }
            assert(y * rl + ow * 3 == (y + 1) * rl) by (nonlinear_arith)
                requires rl == ow * 3;
            y = y + 1;
        }
        assert(oh * rl == rl * oh) by (nonlinear_arith);
        assert(out@.len() == n);
        let ghost spec_rows = spec_row_starts(offs@, counts@, rb as int, h as int, k);
        assert(out@ =~= Seq::new(n as nat, |i: int| spec_sample16(d@, bo, spec_rows, f as int, w as int, h as int,
            i / (rl as int), (i % (rl as int)) / 3, (i % (rl as int)) % 3)));
        Some(RgbPixels { width: ow as u32, height: oh as u32, data: PixelData::Rgb16(out) })
    }
}

/// `r` is the reduced image of the largest uncompressed RGB image (most
/// pixels, first of equals); `None` when there is no such image or it does
/// not reduce.
pub open spec fn largest_downscaled(d: Seq<u8>, bo: ByteOrder, ifds: Seq<IfdV>, m: int, r: Option<RgbPixelsV>) -> bool {
    match r {
        Some(p) => exists|c: int| is_largest_candidate(ifds, c) && spec_downscaled(d, bo, ifds[c], m) == Some(p),
        None => forall|c: int| is_largest_candidate(ifds, c) ==> spec_downscaled(d, bo, ifds[c], m) is None,
    }
}

impl TiffFile {
    /// The largest uncompressed RGB image (most pixels, first of equals),
    /// reduced by nearest-neighbour sampling to at most `max_dim` pixels a
    /// side (one pixel for a bound of 0).
    pub fn decode_largest_downscaled(&self, max_dim: u32) -> (r: Option<RgbPixels>)
        ensures
            largest_downscaled(self.data@, self.byte_order, ifds_view(self.ifds@), max_dim as int,
                match r { Some(p) => Some(p@), None => None }),
    {
        let ghost iv = ifds_view(self.ifds@);
        match largest_candidate(&self.ifds) {
            Some(c) => {
                assert(iv[c as int] == self.ifds@[c as int]@);
                let r = decode_ifd_downscaled(self.data.as_slice(), self.byte_order, &self.ifds[c], max_dim);
                proof {
                    assert forall|c2: int| is_largest_candidate(iv, c2) implies c2 == c by {
                        assert(!crate::tiff::largest_first(iv, c2, c as int));
                        assert(!crate::tiff::largest_first(iv, c as int, c2));
                    }
                }
                r
            },
            None => None,
        }
    }
}

} // verus!
