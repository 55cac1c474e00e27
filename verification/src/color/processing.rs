//! Film processing tables and the byte gradation curve.
//!
//! A gradation given by at most two distinct control points is a straight
//! line between them, flat outside and rounded half away from zero, computed
//! exactly here; one through three or more distinct points is a Bézier curve,
//! sampled outside this library.
use vstd::prelude::*;

use crate::flexcolor::ImageCorrection;

verus! {

/// Red channel film response curve: maps a level 0..=255 (of the
/// normalised output range) to a display value.
pub const FILM_CURVE_LUT_R: [u8; 256] = [
    0, 0, 0, 0, 0, 0, 0, 0, 0, 0, 0, 0, 0, 0, 0, 0,
    0, 0, 0, 0, 0, 0, 0, 0, 0, 0, 0, 0, 0, 0, 0, 0,
    0, 0, 0, 0, 0, 0, 0, 0, 0, 0, 0, 0, 0, 0, 0, 0,
    0, 0, 0, 0, 0, 0, 0, 0, 0, 0, 0, 0, 0, 0, 0, 0,
    0, 0, 0, 0, 0, 0, 0, 0, 0, 0, 0, 0, 0, 0, 0, 0,
    0, 0, 0, 0, 0, 0, 0, 0, 0, 0, 0, 0, 0, 0, 0, 0,
    0, 0, 1, 1, 1, 1, 1, 1, 2, 2, 2, 3, 4, 5, 5, 5,
    6, 7, 8, 9, 10, 11, 12, 13, 13, 14, 14, 15, 16, 17, 17, 19,
    21, 24, 26, 28, 30, 32, 34, 36, 38, 40, 41, 41, 41, 41, 41, 41,
    41, 42, 42, 42, 43, 43, 43, 44, 44, 46, 47, 49, 50, 52, 54, 57,
    59, 61, 63, 65, 67, 68, 69, 71, 73, 75, 76, 77, 78, 80, 82, 83,
    85, 87, 89, 91, 92, 94, 96, 97, 99, 101, 104, 106, 108, 111, 113, 115,
    117, 119, 121, 124, 126, 128, 130, 133, 135, 137, 139, 141, 144, 146, 148, 150,
    152, 154, 156, 158, 159, 162, 164, 167, 169, 172, 174, 177, 180, 182, 185, 187,
    190, 192, 195, 197, 199, 201, 203, 205, 207, 209, 211, 212, 213, 213, 214, 215,
    216, 217, 219, 220, 221, 223, 225, 227, 228, 230, 233, 236, 237, 238, 244, 253,
];

/// Green channel film response curve: maps a level 0..=255 (of the
/// normalised output range) to a display value.
pub const FILM_CURVE_LUT_G: [u8; 256] = [
    0, 0, 0, 0, 0, 0, 0, 0, 0, 0, 0, 0, 0, 0, 0, 0,
    0, 0, 0, 0, 0, 0, 0, 0, 0, 0, 0, 0, 0, 0, 0, 0,
    0, 0, 0, 0, 0, 0, 0, 0, 0, 0, 0, 0, 0, 0, 0, 0,
    0, 0, 0, 0, 0, 0, 0, 0, 0, 0, 0, 0, 0, 0, 0, 0,
    0, 0, 0, 0, 0, 0, 0, 0, 1, 1, 1, 1, 1, 1, 1, 1,
    1, 1, 1, 1, 1, 1, 1, 1, 1, 1, 1, 2, 2, 2, 2, 2,
    2, 2, 2, 2, 2, 2, 3, 3, 3, 3, 3, 3, 3, 4, 4, 4,
    4, 4, 4, 4, 5, 5, 5, 6, 6, 7, 7, 7, 8, 9, 10, 12,
    13, 14, 16, 17, 18, 20, 21, 23, 24, 26, 28, 30, 31, 33, 35, 36,
    38, 39, 41, 43, 44, 46, 48, 50, 52, 54, 55, 57, 59, 60, 62, 63,
    65, 67, 69, 71, 72, 74, 76, 78, 80, 81, 83, 85, 88, 90, 92, 94,
    96, 99, 101, 103, 105, 107, 110, 112, 114, 116, 118, 120, 122, 124, 127, 129,
    131, 134, 137, 139, 142, 145, 148, 150, 153, 156, 159, 162, 164, 167, 170, 172,
    175, 178, 180, 183, 185, 188, 191, 193, 196, 199, 202, 205, 207, 210, 213, 215,
    218, 221, 225, 228, 231, 234, 236, 239, 242, 245, 248, 251, 253, 254, 254, 254,
    254, 255, 255, 255, 255, 255, 255, 255, 255, 255, 255, 255, 255, 255, 255, 255,
];

/// Blue channel film response curve: maps a level 0..=255 (of the
/// normalised output range) to a display value.
pub const FILM_CURVE_LUT_B: [u8; 256] = [
    0, 0, 0, 0, 0, 0, 0, 0, 0, 0, 0, 0, 0, 0, 0, 0,
    0, 0, 0, 0, 0, 0, 0, 0, 0, 0, 0, 0, 0, 0, 0, 0,
    0, 0, 0, 0, 0, 0, 0, 0, 0, 0, 0, 0, 0, 0, 0, 0,
    0, 0, 0, 0, 0, 0, 0, 0, 0, 0, 0, 0, 0, 0, 0, 0,
    0, 0, 0, 0, 0, 0, 0, 0, 0, 0, 0, 0, 0, 0, 0, 0,
    0, 0, 0, 0, 0, 0, 0, 0, 0, 0, 0, 0, 0, 0, 0, 0,
    0, 0, 0, 0, 0, 0, 0, 0, 0, 0, 0, 0, 1, 1, 2, 2,
    3, 3, 4, 5, 5, 6, 7, 7, 8, 9, 10, 11, 12, 13, 14, 15,
    17, 18, 20, 21, 23, 25, 26, 28, 30, 32, 33, 35, 37, 39, 41, 43,
    45, 47, 49, 51, 52, 54, 56, 58, 59, 61, 63, 64, 66, 67, 69, 71,
    73, 75, 77, 79, 81, 83, 86, 88, 90, 92, 94, 96, 98, 100, 102, 105,
    107, 109, 112, 114, 117, 119, 122, 125, 127, 130, 133, 136, 139, 142, 145, 148,
    150, 154, 157, 160, 163, 166, 170, 173, 176, 179, 182, 186, 189, 192, 195, 198,
    201, 204, 207, 210, 213, 216, 220, 223, 226, 229, 233, 236, 239, 242, 245, 247,
    250, 252, 253, 253, 254, 254, 254, 254, 255, 255, 255, 255, 255, 255, 255, 255,
    255, 255, 255, 255, 255, 255, 255, 255, 255, 255, 255, 255, 255, 255, 255, 255,
];

/// The identity byte table.
pub fn identity_lut() -> (r: [u8; 256])
    ensures
        forall|i: int| 0 <= i < 256 ==> #[trigger] r@[i] == i,
{
    let mut lut = [0u8; 256];
    let mut i: usize = 0;
    while i < 256
        invariant
            0 <= i <= 256,
            forall|j: int| 0 <= j < i ==> #[trigger] lut@[j] == j,
        decreases 256 - i,
    {
        lut[i] = i as u8;
        i = i + 1;
    }
    lut
}

/// The distance between table entry `x` and level `y`.
pub open spec fn table_distance(forward: Seq<u8>, x: int, y: int) -> int {
    let d = forward[x] - y;
    if d < 0 {
        -d
    } else {
        d
    }
}

/// Whether `x` is the first input whose table entry is closest to `y`.
pub open spec fn is_first_closest(forward: Seq<u8>, y: int, x: int) -> bool {
    &&& 0 <= x < 256
    &&& forall|z: int| 0 <= z < 256 ==> table_distance(forward, x, y) <= #[trigger] table_distance(forward, z, y)
    &&& forall|z: int| 0 <= z < x ==> table_distance(forward, x, y) < #[trigger] table_distance(forward, z, y)
}

/// The inverse of a byte table: for each level, the first input whose entry
/// is closest to it.
pub fn invert_lut_256(forward: &[u8; 256]) -> (r: [u8; 256])
    ensures
        forall|y: int| 0 <= y < 256 ==> is_first_closest(forward@, y, #[trigger] r@[y] as int),
{
    let mut inv = [0u8; 256];
    let mut y: usize = 0;
    while y < 256
        invariant
            0 <= y <= 256,
            forall|k: int| 0 <= k < y ==> is_first_closest(forward@, k, #[trigger] inv@[k] as int),
        decreases 256 - y,
    {
        let mut best_x: usize = 0;
        let mut best_dist: i32 = 256;
        let mut x: usize = 0;
        while x < 256
            invariant
                0 <= x <= 256,
                y < 256,
                best_x < 256,
                x == 0 ==> best_dist == 256,
                x > 0 ==> best_x < x && best_dist == table_distance(forward@, best_x as int, y as int),
                forall|z: int| 0 <= z < x ==> best_dist <= #[trigger] table_distance(forward@, z, y as int),
                forall|z: int| 0 <= z < best_x ==> best_dist < #[trigger] table_distance(forward@, z, y as int),
            decreases 256 - x,
        {
            let diff: i32 = forward[x] as i32 - y as i32;
            let dist: i32 = if diff < 0 {
                -diff
            } else {
                diff
            };
            if dist < best_dist {
                best_dist = dist;
                best_x = x;
            }
            x = x + 1;
        }
        inv[y] = best_x as u8;
        y = y + 1;
    }
    inv
}

/// `n / d` rounded half away from zero (`d > 0`).
pub open spec fn round_half_away(n: int, d: int) -> int {
    if n >= 0 {
        (2 * n + d) / (2 * d)
    } else {
        -((2 * (-n) + d) / (2 * d))
    }
}

/// `v` clamped to 0..=255.
pub open spec fn clamp_byte(v: int) -> int {
    if v < 0 {
        0
    } else if v > 255 {
        255
    } else {
        v
    }
}

/// Entry `i` of the line from `(xl, yl)` to `(xh, yh)` (`xl < xh`), flat
/// outside, clamped to a byte.
pub open spec fn line_entry(xl: int, yl: int, xh: int, yh: int, i: int) -> int {
    if i <= xl {
        clamp_byte(yl)
    } else if i >= xh {
        clamp_byte(yh)
    } else {
        clamp_byte(round_half_away(yl * (xh - xl) + (i - xl) * (yh - yl), xh - xl))
    }
}

/// Whether every control point has the same input level.
pub open spec fn single_level(points: Seq<(i64, i64, i64)>) -> bool {
    forall|i: int, j: int| 0 <= i < points.len() && 0 <= j < points.len() ==> #[trigger] points[i].0 == #[trigger] points[j].0
}

/// Whether `m` is the least input level of the points.
pub open spec fn is_min_level(points: Seq<(i64, i64, i64)>, m: i64) -> bool {
    &&& exists|i: int| 0 <= i < points.len() && #[trigger] points[i].0 == m
    &&& forall|i: int| 0 <= i < points.len() ==> m <= #[trigger] points[i].0
}

/// Whether `m` is the greatest input level of the points.
pub open spec fn is_max_level(points: Seq<(i64, i64, i64)>, m: i64) -> bool {
    &&& exists|i: int| 0 <= i < points.len() && #[trigger] points[i].0 == m
    &&& forall|i: int| 0 <= i < points.len() ==> #[trigger] points[i].0 <= m
}

/// Whether `i` is the first point with input level `x`.
pub open spec fn is_first_at(points: Seq<(i64, i64, i64)>, x: i64, i: int) -> bool {
    &&& 0 <= i < points.len()
    &&& points[i].0 == x
    &&& forall|j: int| 0 <= j < i ==> #[trigger] points[j].0 != x
}

/// Whether the points have exactly the two input levels `lo < hi`.
pub open spec fn two_levels(points: Seq<(i64, i64, i64)>, lo: i64, hi: i64) -> bool {
    &&& lo < hi
    &&& is_min_level(points, lo)
    &&& is_max_level(points, hi)
    &&& forall|i: int| 0 <= i < points.len() ==> (#[trigger] points[i].0 == lo || points[i].0 == hi)
}

proof fn lemma_div_by_parts(x: int, d2: int, q: int, r: int)
    requires
        d2 > 0,
        0 <= r < d2,
        x == d2 * q + r,
    ensures
        x / d2 == q,
{
    assert(d2 * q == q * d2) by (nonlinear_arith);
    vstd::arithmetic::div_mod::lemma_fundamental_div_mod_converse(x, d2, q, r);
}

proof fn lemma_round_decompose(k: int, rem: int, d: int)
    requires
        d > 0,
        0 <= rem < d,
    ensures
        round_half_away(k * d + rem, d) == k + (if (k >= 0 && 2 * rem >= d) || (k < 0 && 2 * rem > d) {
            1int
        } else {
            0int
        }),
{
    let n = k * d + rem;
    let d2 = 2 * d;
    if k >= 0 {
        assert(n >= 0) by (nonlinear_arith)
            requires
                k >= 0,
                d > 0,
                rem >= 0,
                n == k * d + rem,
        ;
        assert(2 * n + d == d2 * k + 2 * rem + d) by (nonlinear_arith)
            requires
                n == k * d + rem,
                d2 == 2 * d,
        ;
        if 2 * rem >= d {
            assert(2 * n + d == d2 * (k + 1) + (2 * rem - d)) by (nonlinear_arith)
                requires
                    2 * n + d == d2 * k + 2 * rem + d,
                    d2 == 2 * d,
            ;
            lemma_div_by_parts(2 * n + d, d2, k + 1, 2 * rem - d);
        } else {
            lemma_div_by_parts(2 * n + d, d2, k, 2 * rem + d);
        }
    } else {
        assert(n < 0) by (nonlinear_arith)
            requires
                k < 0,
                d > 0,
                rem < d,
                n == k * d + rem,
        ;
        let m = -n;
        if rem == 0 {
            assert(2 * m + d == d2 * (-k) + d) by (nonlinear_arith)
                requires
                    m == -(k * d + rem),
                    rem == 0,
                    d2 == 2 * d,
            ;
            lemma_div_by_parts(2 * m + d, d2, -k, d);
        } else {
            let kk = -k - 1;
            let rr = d - rem;
            assert(2 * m + d == d2 * kk + 2 * rr + d) by (nonlinear_arith)
                requires
                    m == -(k * d + rem),
                    kk == -k - 1,
                    rr == d - rem,
                    d2 == 2 * d,
            ;
            if 2 * rr >= d {
                assert(2 * m + d == d2 * (kk + 1) + (2 * rr - d)) by (nonlinear_arith)
                    requires
                        2 * m + d == d2 * kk + 2 * rr + d,
                        d2 == 2 * d,
                ;
                lemma_div_by_parts(2 * m + d, d2, kk + 1, 2 * rr - d);
            } else {
                lemma_div_by_parts(2 * m + d, d2, kk, 2 * rr + d);
            }
        }
    }
}

fn clamp_byte_exec(v: i128) -> (r: u8)
    ensures
        r == clamp_byte(v as int),
{
    if v < 0 {
        0
    } else if v > 255 {
        255
    } else {
        v as u8
    }
}

/// The interpolated entry strictly between the two points.
fn interpolate_byte(xl: i64, yl: i64, xh: i64, yh: i64, i: i64) -> (r: u8)
    requires
        xl < i < xh,
    ensures
        r == clamp_byte(
            round_half_away(yl * (xh - xl) + (i - xl) * (yh - yl), xh - xl),
        ),
{
    let dx: i128 = xh as i128 - xl as i128;
    let a: i128 = i as i128 - xl as i128;
    let dd: i128 = yh as i128 - yl as i128;
    assert(0 < a < dx <= 0xffff_ffff_ffff_ffff);
    let mag: i128 = if dd >= 0 {
        dd
    } else {
        -dd
    };
    assert(0 <= mag <= 0xffff_ffff_ffff_ffff);
    let au: u128 = a as u128;
    let mu: u128 = mag as u128;
    let du: u128 = dx as u128;
    assert(au * mu < du * 0x1_0000_0000_0000_0000) by (nonlinear_arith)
        requires
            0 < au < du,
            0 <= mu <= 0xffff_ffff_ffff_ffff,
    ;
    assert(du * 0x1_0000_0000_0000_0000 <= 0xffff_ffff_ffff_ffff * 0x1_0000_0000_0000_0000) by (nonlinear_arith)
        requires
            du <= 0xffff_ffff_ffff_ffff,
    ;
    let p: u128 = au * mu;
    let q: u128 = p / du;
    let rm: u128 = p % du;
    proof {
        vstd::arithmetic::div_mod::lemma_fundamental_div_mod(p as int, du as int);
        assert(q <= mu) by (nonlinear_arith)
            requires
                p == au * mu,
                p == du * q + rm,
                0 <= rm,
                au < du,
                0 <= q,
        ;
    }
    let qi: i128 = q as i128;
    let ri: i128 = rm as i128;
    let ghost n: int = yl * (xh - xl) + (i - xl) * (yh - yl);
    let k: i128;
    let rem: i128;
    if dd >= 0 {
        k = yl as i128 + qi;
        rem = ri;
        assert(n == k * dx + rem) by (nonlinear_arith)
            requires
                n == yl * dx + a * dd,
                dd == mag,
                p == a * mag,
                p == dx * q + rm,
                k == yl + q,
                rem == rm,
        ;
    } else if ri == 0 {
        k = yl as i128 - qi;
        rem = 0;
        assert(n == k * dx + rem) by (nonlinear_arith)
            requires
                n == yl * dx + a * dd,
                dd == -mag,
                p == a * mag,
                p == dx * q + rm,
                rm == 0,
                k == yl - q,
                rem == 0,
        ;
    } else {
        k = yl as i128 - qi - 1;
        rem = dx - ri;
        assert(n == k * dx + rem) by (nonlinear_arith)
            requires
                n == yl * dx + a * dd,
                dd == -mag,
                p == a * mag,
                p == dx * q + rm,
                k == yl - q - 1,
                rem == dx - rm,
        ;
    }
    proof {
        lemma_round_decompose(k as int, rem as int, dx as int);
    }
    let up: i128 = if (k >= 0 && 2 * rem >= dx) || (k < 0 && 2 * rem > dx) {
        1
    } else {
        0
    };
    clamp_byte_exec(k + up)
}

/// Entry `i` of the line table through the levels `lo < hi` of `points`.
fn line_entry_exec(lo: i64, yl: i64, hi: i64, yh: i64, i: i64) -> (r: u8)
    requires
        lo < hi,
    ensures
        r == line_entry(lo as int, yl as int, hi as int, yh as int, i as int),
{
    if i <= lo {
        clamp_byte_exec(yl as i128)
    } else if i >= hi {
        clamp_byte_exec(yh as i128)
    } else {
        interpolate_byte(lo, yl, hi, yh, i)
    }
}

/// The byte table of a gradation given by `(x, y, marker)` control points.
/// Points with the same input level count once (the first of them). No or
/// one distinct level gives the identity table; two give the line through
/// them (`line_entry`); three or more give a Bézier curve, which is not
/// computed here (`None`).
pub fn build_curve_lut(points: &[(i64, i64, i64)]) -> (r: Option<[u8; 256]>)
    ensures
        (points@.len() == 0 || single_level(points@)) ==> (r matches Some(t) && forall|i: int|
            0 <= i < 256 ==> #[trigger] t@[i] == i),
        forall|lo: i64, hi: i64, il: int, ih: int|
            two_levels(points@, lo, hi) && is_first_at(points@, lo, il) && is_first_at(points@, hi, ih) ==> (
            r matches Some(t) && forall|i: int|
                0 <= i < 256 ==> #[trigger] t@[i] == line_entry(
                    lo as int,
                    points@[il].1 as int,
                    hi as int,
                    points@[ih].1 as int,
                    i,
                )),
        r.is_none() <==> (points@.len() > 0 && !single_level(points@) && !(exists|lo: i64, hi: i64|
            two_levels(points@, lo, hi))),
{
    let n = points.len();
    if n == 0 {
        return Some(identity_lut());
    }
    let mut lo: i64 = points[0].0;
    let mut il: usize = 0;
    let mut hi: i64 = points[0].0;
    let mut ih: usize = 0;
    let mut k: usize = 1;
    while k < n
        invariant
            1 <= k <= n,
            n == points@.len(),
            il < k && ih < k,
            points@[il as int].0 == lo && points@[ih as int].0 == hi,
            forall|j: int| 0 <= j < k ==> lo <= #[trigger] points@[j].0 <= hi,
            forall|j: int| 0 <= j < il ==> #[trigger] points@[j].0 != lo,
            forall|j: int| 0 <= j < ih ==> #[trigger] points@[j].0 != hi,
        decreases n - k,
    {
        let x = points[k].0;
        if x < lo {
            lo = x;
            il = k;
        }
        if x > hi {
            hi = x;
            ih = k;
        }
        k = k + 1;
    }
    assert(is_min_level(points@, lo));
    assert(is_max_level(points@, hi));
    if lo == hi {
        assert(single_level(points@));
        return Some(identity_lut());
    }
    assert(!single_level(points@)) by {
        assert(points@[il as int].0 != points@[ih as int].0);
    }
    let mut m: usize = 0;
    while m < n
        invariant
            0 <= m <= n,
            n == points@.len(),
            il < n && ih < n,
            lo < hi,
            points@[il as int].0 == lo && points@[ih as int].0 == hi,
            forall|j: int| 0 <= j < m ==> (#[trigger] points@[j].0 == lo || points@[j].0 == hi),
        decreases n - m,
    {
        let x = points[m].0;
        if x != lo && x != hi {
            assert(!(exists|a: i64, b: i64| two_levels(points@, a, b))) by {
                if exists|a: i64, b: i64| two_levels(points@, a, b) {
                    let (a, b) = choose|a: i64, b: i64| two_levels(points@, a, b);
                    assert(points@[il as int].0 == a || points@[il as int].0 == b);
                    assert(points@[m as int].0 == a || points@[m as int].0 == b);
                    assert(points@[ih as int].0 == a || points@[ih as int].0 == b);
                    assert(lo != hi && x != lo && x != hi);
                    assert(false);
                }
            }
            return None;
        }
        m = m + 1;
    }
    assert(two_levels(points@, lo, hi));
    let yl = points[il].1;
    let yh = points[ih].1;
    let mut lut = [0u8; 256];
    let mut i: usize = 0;
    while i < 256
        invariant
            0 <= i <= 256,
            lo < hi,
            forall|j: int| 0 <= j < i ==> #[trigger] lut@[j] == line_entry(lo as int, yl as int, hi as int, yh as int, j),
        decreases 256 - i,
    {
        lut[i] = line_entry_exec(lo, yl, hi, yh, i as i64);
        i = i + 1;
    }
    assert forall|a: i64, b: i64, ja: int, jb: int|
        two_levels(points@, a, b) && is_first_at(points@, a, ja) && is_first_at(points@, b, jb) implies ja
        == il && jb == ih && a == lo && b == hi by {
        assert(a <= points@[il as int].0);
        assert(lo <= points@[ja].0);
        assert(points@[ih as int].0 <= b);
        assert(points@[jb].0 <= hi);
        if ja < il {
            assert(points@[ja].0 != lo);
        }
        if il < ja {
            assert(points@[il as int].0 != a);
        }
        if jb < ih {
            assert(points@[jb].0 != hi);
        }
        if ih < jb {
            assert(points@[ih as int].0 != b);
        }
    }
    Some(lut)
}

/// Whether a gradation is the identity pair (0, 0), (255, 255).
pub open spec fn identity_gradation(pts: Seq<(i64, i64, i64)>) -> bool {
    pts.len() == 2 && pts[0].0 == 0 && pts[0].1 == 0 && pts[1].0 == 255 && pts[1].1 == 255
}

/// Whether a correction carries display adjustments too heavy to undo when
/// the film curve is read back from a thumbnail: contrast, brightness or
/// lightness with the sliders applied; a colour correction matrix of 36
/// entries not all zero, applied; seven or more gradations applied, not all
/// the identity pair; or dot colours (14 or more) whose first is not 0 or
/// whose eighth is not 255.
pub open spec fn heavy_adjustments(c: ImageCorrection) -> bool {
    let cbl = c.apply_sliders && (c.contrast != 0 || c.brightness != 0 || c.lightness != 0);
    let cc = c.apply_cc && c.color_corr@.len() == 36 && exists|i: int| 0 <= i < 36 && #[trigger] c.color_corr@[i] != 0;
    let grad = c.apply_curves && c.gradations@.len() >= 7 && exists|i: int|
        0 <= i < c.gradations@.len() && !identity_gradation(#[trigger] c.gradations@[i]@);
    let dot = c.dot_color@.len() >= 14 && (c.dot_color@[0] != 0 || c.dot_color@[7] != 255);
    cbl || cc || grad || dot
}

fn is_identity_gradation(pts: &Vec<(i64, i64, i64)>) -> (r: bool)
    ensures
        r == identity_gradation(pts@),
{
    pts.len() == 2 && pts[0].0 == 0 && pts[0].1 == 0 && pts[1].0 == 255 && pts[1].1 == 255
}

/// Whether the correction carries heavy display adjustments
/// (`heavy_adjustments`).
pub fn has_heavy_adjustments(c: &ImageCorrection) -> (r: bool)
    ensures
        r == heavy_adjustments(*c),
{
    let cbl = c.apply_sliders && (c.contrast != 0 || c.brightness != 0 || c.lightness != 0);
    let mut cc = false;
    if c.apply_cc && c.color_corr.len() == 36 {
        let mut i: usize = 0;
        while i < 36
            invariant
                0 <= i <= 36,
                c.color_corr@.len() == 36,
                cc == exists|j: int| 0 <= j < i && #[trigger] c.color_corr@[j] != 0,
            decreases 36 - i,
        {
            if c.color_corr[i] != 0 {
                cc = true;
            }
            i = i + 1;
        }
    }
    let mut grad = false;
    if c.apply_curves && c.gradations.len() >= 7 {
        let mut i: usize = 0;
        while i < c.gradations.len()
            invariant
                0 <= i <= c.gradations@.len(),
                grad == exists|j: int| 0 <= j < i && !identity_gradation(#[trigger] c.gradations@[j]@),
            decreases c.gradations@.len() - i,
        {
            if !is_identity_gradation(&c.gradations[i]) {
                grad = true;
            }
            i = i + 1;
        }
    }
    let dot = c.dot_color.len() >= 14 && (c.dot_color[0] != 0 || c.dot_color[7] != 255);
    cbl || cc || grad || dot
}

/// Whether the film curve is read back from a thumbnail and a preview of the
/// given sizes: the sizes agree, the film is a negative (type 1 or 2), and
/// the correction has no heavy display adjustments.
pub fn film_curve_extractable(thumb_w: u32, thumb_h: u32, preview_w: u32, preview_h: u32, c: &ImageCorrection) -> (r: bool)
    ensures
        r == (thumb_w == preview_w && thumb_h == preview_h && (c.film_type == 1 || c.film_type == 2)
            && !heavy_adjustments(*c)),
{
    thumb_w == preview_w && thumb_h == preview_h && (c.film_type == 1 || c.film_type == 2) && !has_heavy_adjustments(c)
}

/// Whether a byte table never decreases and never rises by more than 9
/// between neighbouring entries.
pub open spec fn smooth_monotone(t: Seq<u8>) -> bool {
    forall|i: int| 1 <= i < 256 ==> t[i - 1] <= #[trigger] t[i] <= t[i - 1] + 9
}

/// The film response curves never decrease and rise by at most 9 per step.
pub proof fn lemma_film_curves_smooth_monotone()
    ensures
        smooth_monotone(FILM_CURVE_LUT_R@),
        smooth_monotone(FILM_CURVE_LUT_G@),
        smooth_monotone(FILM_CURVE_LUT_B@),
{
    assert(FILM_CURVE_LUT_R@.len() == 256);
}

} // verus!
