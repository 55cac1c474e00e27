//! The table of a curve through three or more control points: the clamped
//! uniform B-spline through them (cubic from four points on, of order `n`
//! below that), sampled at the 1025 parameters `s / 1024`, the samples put
//! in order of their inputs, and the 14-bit table filled by straight lines
//! between neighbouring samples.
//!
//! The arithmetic is exact. With `m = n - k + 1` knot intervals, a parameter
//! `s / 1024` is held as `u = s * m` and a knot `j / m` as `1024 * j`. Every
//! ratio of the Cox–de Boor recursion then has a denominator `1024 * a`,
//! where the knot span `a` is at most three intervals, so a ratio is an
//! integer over 6144 and a basis value of order `k` an integer over
//! `6144^(k - 1)`. Sample levels are rounded half away from zero and clamped
//! to the 14-bit domain; inputs are truncated toward zero and clamped to the
//! table.
use vstd::prelude::*;

use super::point::CurvePoint;
use super::{round_clamp_14, MAX_14BIT};

verus! {

/// Knot numerators over `n - k + 1`: `k` zeros, then `1..=n-k`, then `k`
/// copies of `n - k + 1`.
pub open spec fn knots_spec(n: int, k: int) -> Seq<i128> {
    Seq::new(
        (n + k) as nat,
        |j: int|
            if j < k {
                0i128
            } else if j < n {
                (j - k + 1) as i128
            } else {
                (n - k + 1) as i128
            },
    )
}

/// The order of the spline through `n` points: cubic from four points on.
pub open spec fn spline_order(n: int) -> int {
    if n < 4 {
        n
    } else {
        4
    }
}

/// The common denominator `6144^(k - 1)` of the samples of a spline of order `k`.
pub open spec fn spline_scale(k: int) -> int {
    if k <= 1 {
        1
    } else if k == 2 {
        6144
    } else if k == 3 {
        6144int * 6144
    } else {
        6144int * 6144 * 6144
    }
}

/// The control inputs on the 14-bit domain.
pub open spec fn ctrl_x(points: Seq<CurvePoint>) -> Seq<i128> {
    Seq::new(points.len(), |i: int| (points[i].x * 64) as i128)
}

/// The control levels on the 14-bit domain.
pub open spec fn ctrl_y(points: Seq<CurvePoint>) -> Seq<i128> {
    Seq::new(points.len(), |i: int| (points[i].y * 64) as i128)
}

/// Sample `s` of the spline through `points`: its input and level at the
/// parameter `s / 1024`, each over `spline_scale`, and its number `s`.
pub open spec fn spline_sample(points: Seq<CurvePoint>, s: int) -> (i128, i128, usize) {
    let n = points.len() as int;
    let k = spline_order(n);
    let knots = knots_spec(n, k);
    let u = s * (n - k + 1);
    (
        weighted_sum(ctrl_x(points), knots, k as nat, u, n) as i128,
        weighted_sum(ctrl_y(points), knots, k as nat, u, n) as i128,
        s as usize,
    )
}

/// The 1025 samples of the spline through `points`.
pub open spec fn spline_samples(points: Seq<CurvePoint>) -> Seq<(i128, i128, usize)> {
    Seq::new(1025, |s: int| spline_sample(points, s))
}

/// Whether sample `a` comes no later than sample `b`: a smaller input, or
/// the same input and a number no greater (samples of equal input keep the
/// order in which they were taken).
pub open spec fn sample_le(a: (i128, i128, usize), b: (i128, i128, usize)) -> bool {
    a.0 < b.0 || (a.0 == b.0 && a.2 <= b.2)
}

/// Whether the samples are in order of their inputs, samples of equal input
/// in the order in which they were taken.
pub open spec fn sorted_by_input(s: Seq<(i128, i128, usize)>) -> bool {
    forall|p: int, q: int| 0 <= p < q < s.len() ==> sample_le(#[trigger] s[p], #[trigger] s[q])
}

/// The input `x / e` truncated toward zero and clamped to `0..=hi`.
pub open spec fn input_index_spec(x: int, e: int, hi: int) -> int {
    if x <= 0 {
        0
    } else if x / e > hi {
        hi
    } else {
        x / e
    }
}

/// Whether the line from sample `w` to sample `w + 1` is drawn and covers
/// table entry `i`.
pub open spec fn window_covers(s: Seq<(i128, i128, usize)>, e: int, w: int, i: int) -> bool {
    let a = input_index_spec(s[w].0 as int, e, 16383);
    let b = input_index_spec(s[w + 1].0 as int, e, 16383);
    a < b && a <= i <= b
}

/// Entry `i` on the line from sample `w` to sample `w + 1`.
pub open spec fn window_value(s: Seq<(i128, i128, usize)>, e: int, w: int, i: int) -> int {
    let x0 = s[w].0 as int;
    let y0 = s[w].1 as int;
    let x1 = s[w + 1].0 as int;
    let y1 = s[w + 1].1 as int;
    round_clamp_14(y0 * (x1 - x0) + (i * e - x0) * (y1 - y0), e * (x1 - x0))
}

/// Entry `i` after the entries before the first sample's input are set to
/// its level and the lines of the first `w` neighbouring pairs are drawn in
/// order, each over the entries it covers.
pub open spec fn fill_after(s: Seq<(i128, i128, usize)>, e: int, w: int, i: int) -> int
    decreases w,
{
    if w <= 0 {
        if i < input_index_spec(s[0].0 as int, e, 16384) {
            round_clamp_14(s[0].1 as int, e)
        } else {
            0
        }
    } else if window_covers(s, e, w - 1, i) {
        window_value(s, e, w - 1, i)
    } else {
        fill_after(s, e, w - 1, i)
    }
}

/// Entry `i` of the table drawn from 1025 ordered samples: the lines between
/// neighbours, the first sample's level before it, the last one's after it.
pub open spec fn spline_fill(s: Seq<(i128, i128, usize)>, e: int, i: int) -> int {
    if i > input_index_spec(s[1024].0 as int, e, 16384) {
        round_clamp_14(s[1024].1 as int, e)
    } else {
        fill_after(s, e, 1024, i)
    }
}

fn clamped_knots(n: usize, k: usize) -> (r: Vec<i128>)
    requires
        1 <= k <= 4,
        k <= n < 0x1_0000_0000_0000,
    ensures
        r@.len() == n + k,
        forall|j: int| 0 <= j < r@.len() ==> 0 <= #[trigger] r@[j] <= n,
        r@ == knots_spec(n as int, k as int),
{
    let inner: usize = n - k;
    let mut r: Vec<i128> = Vec::new();
    let mut a: usize = 0;
    while a < k
        invariant
            0 <= a <= k,
            r@.len() == a,
            forall|j: int| 0 <= j < r@.len() ==> 0 <= #[trigger] r@[j] <= n,
            forall|j: int| 0 <= j < r@.len() ==> #[trigger] r@[j] == knots_spec(n as int, k as int)[j],
        decreases k - a,
    {
        r.push(0);
        a = a + 1;
    }
    let mut j: usize = 1;
    while j <= inner
        invariant
            1 <= j <= inner + 1,
            inner == n - k,
            1 <= k <= n < 0x1_0000_0000_0000,
            r@.len() == k + j - 1,
            forall|q: int| 0 <= q < r@.len() ==> 0 <= #[trigger] r@[q] <= n,
            forall|q: int| 0 <= q < r@.len() ==> #[trigger] r@[q] == knots_spec(n as int, k as int)[q],
        decreases inner + 1 - j,
    {
        r.push(j as i128);
        j = j + 1;
    }
    let top: i128 = (inner + 1) as i128;
    let mut b: usize = 0;
    while b < k
        invariant
            0 <= b <= k,
            1 <= k <= n < 0x1_0000_0000_0000,
            top == n - k + 1,
            r@.len() == n + b,
            forall|q: int| 0 <= q < r@.len() ==> 0 <= #[trigger] r@[q] <= n,
            forall|q: int| 0 <= q < r@.len() ==> #[trigger] r@[q] == knots_spec(n as int, k as int)[q],
        decreases k - b,
    {
        r.push(top);
        b = b + 1;
    }
    assert(r@ =~= knots_spec(n as int, k as int));
    r
}

/// Whether no knot interval after interval `i` is non-empty and ends at
/// the last knot.
pub open spec fn last_nonempty_spec(knots: Seq<i128>, i: int) -> bool {
    forall|j: int|
        i + 1 <= j && j + 1 < knots.len() ==> !(#[trigger] knots[j] < knots[j + 1] && knots[j + 1]
            == knots[knots.len() - 1])
}

/// Basis function `i` of order `k` at `u` by the Cox–de Boor recursion, as an
/// integer over `6144^(k - 1)` (knots and `u` scaled as the module says).
/// Order one is the indicator of the half-open interval `[knot i, knot i+1)`,
/// closed at the end for the last non-empty interval.
pub open spec fn basis_value(knots: Seq<i128>, i: int, k: nat, u: int) -> int
    decreases k,
{
    let len = knots.len();
    if i < 0 || i >= len || len - i <= k {
        0
    } else if k <= 1 {
        let lo = knots[i] * 1024;
        let next = knots[i + 1] * 1024;
        let last = knots[len - 1] * 1024;
        if lo <= u < next {
            1
        } else if u >= last && next == last && lo < next && last_nonempty_spec(knots, i) {
            1
        } else {
            0
        }
    } else {
        let left_span = knots[i + k - 1] - knots[i];
        let right_span = knots[i + k] - knots[i + 1];
        let left = if left_span == 0 {
            0
        } else {
            (u - knots[i] * 1024) * (6int / left_span) * basis_value(knots, i, (k - 1) as nat, u)
        };
        let right = if right_span == 0 {
            0
        } else {
            (knots[i + k] * 1024 - u) * (6int / right_span) * basis_value(knots, i + 1, (k - 1) as nat, u)
        };
        left + right
    }
}

/// `sum of ctrl[i] * basis_value(knots, i, k, u)` over the first `n` control values.
pub open spec fn weighted_sum(ctrl: Seq<i128>, knots: Seq<i128>, k: nat, u: int, n: int) -> int
    decreases n,
{
    if n <= 0 {
        0
    } else {
        weighted_sum(ctrl, knots, k, u, n - 1) + ctrl[n - 1] * basis_value(knots, n - 1, k, u)
    }
}

/// Whether the knots are non-negative, at most 2^48, and each is the one
/// before it or one more.
pub open spec fn unit_knots(knots: Seq<i128>) -> bool {
    &&& knots.len() >= 1
    &&& forall|j: int| 0 <= j < knots.len() ==> 0 <= #[trigger] knots[j] <= 0x1_0000_0000_0000
    &&& forall|j: int| 0 <= j < knots.len() - 1 ==> #[trigger] knots[j] <= knots[j + 1] <= knots[j] + 1
}

/// The bound `12288^(k - 1)` on a basis value of order `k`.
pub open spec fn basis_bound(k: int) -> int {
    if k <= 1 {
        1
    } else if k == 2 {
        12288
    } else if k == 3 {
        12288int * 12288
    } else {
        12288int * 12288 * 12288
    }
}

proof fn lemma_knot_span(knots: Seq<i128>, a: int, b: int)
    requires
        unit_knots(knots),
        0 <= a <= b < knots.len(),
    ensures
        0 <= knots[b] - knots[a] <= b - a,
    decreases b - a,
{
    if a < b {
        lemma_knot_span(knots, a, b - 1);
        assert(knots[b - 1] <= knots[b] <= knots[b - 1] + 1);
    }
}

/// `g * (6 / a) * v` for a span `a` of one to three intervals, a scaled
/// distance `0 <= g <= 1024 * a` and `0 <= v <= b`, lies in `[0, 6144 * b]`.
proof fn lemma_ratio_term(g: int, a: int, v: int, b: int)
    requires
        1 <= a <= 3,
        0 <= g <= 1024 * a,
        0 <= v <= b,
    ensures
        0 <= g * (6int / a) * v <= 6144 * b,
{
    let c = 6int / a;
    if a == 1 {
        assert(c == 6);
        assert(g * c == g * 6);
    } else if a == 2 {
        assert(c == 3);
        assert(g * c == g * 3);
    } else {
        assert(c == 2);
        assert(g * c == g * 2);
    }
    let f = g * c;
    assert(0 <= f <= 6144);
    assert(0 <= f * v <= 6144 * b) by (nonlinear_arith)
        requires
            0 <= f <= 6144,
            0 <= v <= b,
    ;
}

/// A basis value of order `k <= 4` on unit-step knots lies in
/// `[0, basis_bound(k)]`, and is zero unless `u` lies between knot `i` and
/// knot `i + k` (scaled).
proof fn lemma_basis_range(knots: Seq<i128>, i: int, k: nat, u: int)
    requires
        unit_knots(knots),
        1 <= k <= 4,
        0 <= u <= knots[knots.len() - 1] * 1024,
    ensures
        0 <= basis_value(knots, i, k, u) <= basis_bound(k as int),
        basis_value(knots, i, k, u) != 0 ==> 0 <= i && i + k < knots.len() && knots[i] * 1024 <= u
            <= knots[i + k] * 1024,
    decreases k,
{
    let len = knots.len();
    if i < 0 || i >= len || len - i <= k {
    } else if k <= 1 {
        if !(knots[i] * 1024 <= u < knots[i + 1] * 1024) && basis_value(knots, i, k, u) != 0 {
            assert(knots[i + 1] == knots[len - 1]);
        }
    } else {
        let k1 = (k - 1) as nat;
        lemma_basis_range(knots, i, k1, u);
        lemma_basis_range(knots, i + 1, k1, u);
        lemma_knot_span(knots, i, i + k - 1);
        lemma_knot_span(knots, i + 1, i + k);
        lemma_knot_span(knots, i, i + 1);
        lemma_knot_span(knots, i + k - 1, i + k);
        let ls = knots[i + k - 1] - knots[i];
        let rs = knots[i + k] - knots[i + 1];
        let nl = basis_value(knots, i, k1, u);
        let nr = basis_value(knots, i + 1, k1, u);
        let left = if ls == 0 {
            0
        } else {
            (u - knots[i] * 1024) * (6int / ls) * nl
        };
        let right = if rs == 0 {
            0
        } else {
            (knots[i + k] * 1024 - u) * (6int / rs) * nr
        };
        assert(basis_value(knots, i, k, u) == left + right);
        if ls != 0 {
            if nl == 0 {
                let f = (u - knots[i] * 1024) * (6int / ls);
                assert(f * nl == 0) by (nonlinear_arith)
                    requires
                        nl == 0,
                ;
            } else {
                lemma_ratio_term(u - knots[i] * 1024, ls, nl, basis_bound(k1 as int));
            }
        }
        if rs != 0 {
            if nr == 0 {
                let f = (knots[i + k] * 1024 - u) * (6int / rs);
                assert(f * nr == 0) by (nonlinear_arith)
                    requires
                        nr == 0,
                ;
            } else {
                lemma_ratio_term(knots[i + k] * 1024 - u, rs, nr, basis_bound(k1 as int));
            }
        }
        assert(0 <= left <= 6144 * basis_bound(k1 as int));
        assert(0 <= right <= 6144 * basis_bound(k1 as int));
    }
}

/// A bound on every sample coordinate of a spline.
pub open spec fn sample_cap() -> int {
    200 * (16320 * basis_bound(4))
}

proof fn lemma_knots_unit(n: int, k: int)
    requires
        1 <= k <= 4,
        k <= n < 0x1_0000_0000_0000,
    ensures
        unit_knots(knots_spec(n, k)),
        knots_spec(n, k)[n + k - 1] == n - k + 1,
{
    let kn = knots_spec(n, k);
    assert forall|j: int| 0 <= j < kn.len() - 1 implies #[trigger] kn[j] <= kn[j + 1] <= kn[j] + 1 by {
    }
}

proof fn lemma_index_monotone(a: int, b: int, e: int, hi: int)
    requires
        a <= b,
        e > 0,
        hi >= 0,
    ensures
        input_index_spec(a, e, hi) <= input_index_spec(b, e, hi),
{
    if a > 0 {
        vstd::arithmetic::div_mod::lemma_div_is_ordered(a, b, e);
    }
}

/// The products of one line of the table fit: for samples within
/// `sample_cap`, the denominator, the level term and the rise term.
proof fn lemma_window_fits(x0: int, y0: int, x1: int, y1: int, e: int, j: int, cap: int)
    requires
        0 <= x0 <= cap,
        0 <= x1 <= cap,
        0 <= y0 <= cap,
        0 <= y1 <= cap,
        cap <= sample_cap(),
        0 < e <= spline_scale(4),
        0 <= j <= 16383,
    ensures
        -sample_cap() <= x1 - x0 <= sample_cap(),
        x0 < x1 ==> 0 < e * (x1 - x0) <= 1404582907732884315200028672000,
        -36676468886721075238503148683264000000 <= y0 * (x1 - x0) <= 36676468886721075238503148683264000000,
        -36699480168498463082239070752997376000 <= (j * e - x0) * (y1 - y0) <= 36699480168498463082239070752997376000,
        0 <= j * e <= 16383 * 231928233984,
{
    let c = sample_cap();
    let f = spline_scale(4);
    assert(c == 6056110045790208000);
    assert(f == 231928233984);
    assert(0 <= j * e <= 16383 * f) by (nonlinear_arith)
        requires
            0 <= j <= 16383,
            0 < e <= f,
    ;
    assert(x0 < x1 ==> 0 < e * (x1 - x0) <= f * c) by (nonlinear_arith)
        requires
            0 <= x0 <= c,
            0 <= x1 <= c,
            0 < e <= f,
    ;
    assert(-(c * c) <= y0 * (x1 - x0) <= c * c) by (nonlinear_arith)
        requires
            0 <= x0 <= c,
            0 <= x1 <= c,
            0 <= y0 <= c,
    ;
    assert(-(c + 16383 * f) * c <= (j * e - x0) * (y1 - y0) <= (c + 16383 * f) * c) by (nonlinear_arith)
        requires
            0 <= x0 <= c,
            0 <= y0 <= c,
            0 <= y1 <= c,
            0 < e <= f,
            0 <= j <= 16383,
            c > 0,
            f > 0,
    ;
}

/// Whether no later knot interval ends at the last knot, so that interval
/// `i` is the last one that is not empty.
fn last_nonempty(knots: &Vec<i128>, i: usize) -> (r: bool)
    requires
        i + 1 < knots@.len(),
    ensures
        r == last_nonempty_spec(knots@, i as int),
{
    let len = knots.len();
    let last = knots[len - 1];
    let mut j: usize = i + 1;
    while j + 1 < len
        invariant
            len == knots@.len(),
            i + 1 <= j <= len - 1,
            last == knots@[len - 1],
            forall|q: int|
                i + 1 <= q < j ==> !(#[trigger] knots@[q] < knots@[q + 1] && knots@[q + 1] == last),
        decreases len - j,
    {
        if knots[j] < knots[j + 1] && knots[j + 1] == last {
            assert(!last_nonempty_spec(knots@, i as int));
            return false;
        }
        j = j + 1;
    }
    true
}

/// `g * (6 / span) * v`: one term of the recursion, for a span of one to
/// three intervals and a basis value `v` that is zero unless `g` is a
/// distance within the span.
fn ratio_term(g: i128, span: i128, v: i128, Ghost(b): Ghost<int>) -> (r: i128)
    requires
        1 <= span <= 3,
        -0x1000_0000_0000_0000 <= g <= 0x1000_0000_0000_0000,
        0 <= v <= b <= basis_bound(3),
        v != 0 ==> 0 <= g <= 1024 * span,
    ensures
        r == g * (6int / (span as int)) * v,
        0 <= r <= 6144 * b,
{
    let c: i128 = 6 / span;
    assert(0 <= c <= 6) by (nonlinear_arith)
        requires
            c == 6i128 / span,
            span > 0,
    ;
    assert(-0x1_0000_0000_0000_0000 <= g * c <= 0x1_0000_0000_0000_0000) by (nonlinear_arith)
        requires
            -0x1000_0000_0000_0000 <= g <= 0x1000_0000_0000_0000,
            0 <= c <= 6,
    ;
    let f: i128 = g * c;
    proof {
        if v != 0 {
            lemma_ratio_term(g as int, span as int, v as int, b);
        } else {
            assert(f * v == 0) by (nonlinear_arith)
                requires
                    v == 0,
            ;
        }
    }
    f * v
}

/// Basis function `i` of order `k` at `u`, as an integer over
/// `6144^(k - 1)`: always there on unit-step knots, and within
/// `basis_bound(k)`.
#[verifier::spinoff_prover]
#[verifier::rlimit(80)]
fn basis(knots: &Vec<i128>, i: usize, k: usize, u: i128) -> (r: Option<i128>)
    requires
        1 <= k <= 4,
        unit_knots(knots@),
        0 <= u <= knots@[knots@.len() - 1] * 1024,
    ensures
        r is Some,
        r matches Some(v) ==> v == basis_value(knots@, i as int, k as nat, u as int),
        r matches Some(v) ==> 0 <= v <= basis_bound(k as int),
    decreases k,
{
    proof {
        lemma_basis_range(knots@, i as int, k as nat, u as int);
    }
    let len = knots.len();
    if i >= len || len - i <= k {
        return Some(0);
    }
    let lo: i128 = knots[i] * 1024;
    let next: i128 = knots[i + 1] * 1024;
    if k == 1 {
        if u >= lo && u < next {
            return Some(1);
        }
        let last: i128 = knots[len - 1] * 1024;
        if u >= last && next == last && lo < next && last_nonempty(knots, i) {
            return Some(1);
        }
        return Some(0);
    }
    proof {
        lemma_knot_span(knots@, i as int, i + k - 1);
        lemma_knot_span(knots@, i + 1, i + k as int);
        lemma_basis_range(knots@, i as int, (k - 1) as nat, u as int);
        lemma_basis_range(knots@, i + 1, (k - 1) as nat, u as int);
    }
    let left_span: i128 = knots[i + k - 1] - knots[i];
    let right_span: i128 = knots[i + k] - knots[i + 1];
    let ghost bl = basis_bound(k - 1);
    let left: i128 = if left_span == 0 {
        0
    } else {
        let nl = match basis(knots, i, k - 1, u) {
            Some(v) => v,
            None => return None,
        };
        ratio_term(u - lo, left_span, nl, Ghost(bl))
    };
    let right: i128 = if right_span == 0 {
        0
    } else {
        let nr = match basis(knots, i + 1, k - 1, u) {
            Some(v) => v,
            None => return None,
        };
        ratio_term(knots[i + k] * 1024 - u, right_span, nr, Ghost(bl))
    };
    Some(left + right)
}

/// The number of the first `i` basis functions of order `k` that can be
/// non-zero at `u`: those from `u / 1024 - 1` to `u / 1024 + k - 1`.
pub open spec fn live_count(i: int, k: int, u: int) -> int {
    let c = i - (u / 1024 - 1);
    if c <= 0 {
        0
    } else if c > k + 1 {
        k + 1
    } else {
        c
    }
}

proof fn lemma_knot_window(n: int, k: int, j: int)
    requires
        1 <= k <= 4,
        k <= n < 0x1_0000_0000_0000,
        0 <= j < n,
    ensures
        knots_spec(n, k)[j] >= j - k + 1,
        knots_spec(n, k)[j + k] <= j + 1,
{
}

/// The spline coordinate `sum ctrl[i] * N(i, k, u)`, over `6144^(k - 1)`:
/// always there for control values on the 14-bit grid, and at most
/// `(k + 1) * 16320 * basis_bound(k)`, since at most `k + 1` basis
/// functions are non-zero at `u`.
fn spline_value(ctrl: &Vec<i128>, knots: &Vec<i128>, k: usize, u: i128) -> (r: Option<i128>)
    requires
        1 <= k <= 4,
        k <= ctrl@.len() < 0x1_0000_0000_0000,
        knots@ == knots_spec(ctrl@.len() as int, k as int),
        unit_knots(knots@),
        0 <= u <= knots@[knots@.len() - 1] * 1024,
        forall|j: int| 0 <= j < ctrl@.len() ==> 0 <= #[trigger] ctrl@[j] <= 16320,
    ensures
        r is Some,
        r matches Some(v) ==> v == weighted_sum(ctrl@, knots@, k as nat, u as int, ctrl@.len() as int),
        r matches Some(v) ==> 0 <= v <= (k + 1) * (16320 * basis_bound(k as int)),
{
    let ghost t: int = 16320 * basis_bound(k as int);
    let ghost n: int = ctrl@.len() as int;
    let mut sum: i128 = 0;
    let mut i: usize = 0;
    while i < ctrl.len()
        invariant
            0 <= i <= ctrl@.len(),
            n == ctrl@.len(),
            1 <= k <= 4,
            k <= n,
            n < 0x1_0000_0000_0000,
            knots@ == knots_spec(n, k as int),
            unit_knots(knots@),
            0 <= u <= knots@[knots@.len() - 1] * 1024,
            forall|j: int| 0 <= j < ctrl@.len() ==> 0 <= #[trigger] ctrl@[j] <= 16320,
            t == 16320 * basis_bound(k as int),
            0 < t <= 16320 * basis_bound(4),
            sum == weighted_sum(ctrl@, knots@, k as nat, u as int, i as int),
            0 <= sum <= live_count(i as int, k as int, u as int) * t,
        decreases ctrl@.len() - i,
    {
        let b = match basis(knots, i, k, u) {
            Some(v) => v,
            None => return None,
        };
        let c = ctrl[i];
        assert(0 <= c * b <= t) by (nonlinear_arith)
            requires
                0 <= c <= 16320,
                0 <= b <= basis_bound(k as int),
                t == 16320 * basis_bound(k as int),
        ;
        proof {
            let lc = live_count(i as int, k as int, u as int);
            let lc1 = live_count(i + 1, k as int, u as int);
            assert(lc <= lc1);
            if b != 0 {
                lemma_basis_range(knots@, i as int, k as nat, u as int);
                lemma_knot_window(n, k as int, i as int);
                assert(knots@[i as int] * 1024 <= u <= knots@[i + k] * 1024);
                assert(i - k + 1 <= u / 1024 <= i + 1);
                assert(lc1 == lc + 1);
                assert(lc * t + t == lc1 * t) by (nonlinear_arith)
                    requires
                        lc1 == lc + 1,
                ;
            } else {
                assert(c * b == 0) by (nonlinear_arith)
                    requires
                        b == 0,
                ;
                assert(lc * t <= lc1 * t) by (nonlinear_arith)
                    requires
                        lc <= lc1,
                        t > 0,
                ;
            }
            assert(lc1 * t <= 5 * (16320 * basis_bound(4))) by (nonlinear_arith)
                requires
                    0 <= lc1 <= 5,
                    0 < t <= 16320 * basis_bound(4),
            ;
        }
        sum = sum + c * b;
        i = i + 1;
    }
    proof {
        let lc = live_count(i as int, k as int, u as int);
        assert(lc * t <= (k + 1) * t) by (nonlinear_arith)
            requires
                lc <= k + 1,
                t > 0,
        ;
    }
    Some(sum)
}

/// Puts the samples in order of their inputs and numbers (`sample_le`).
fn sort_by_input(samples: &mut Vec<(i128, i128, usize)>)
    ensures
        final(samples)@.len() == old(samples)@.len(),
        final(samples)@.to_multiset() == old(samples)@.to_multiset(),
        sorted_by_input(final(samples)@),
{
    broadcast use vstd::seq_lib::group_to_multiset_ensures, vstd::seq_lib::to_multiset_update, vstd::multiset::group_multiset_axioms;

    let len = samples.len();
    if len == 0 {
        return;
    }
    let ghost orig = samples@;
    let mut i: usize = 1;
    while i < len
        invariant
            len == samples@.len(),
            1 <= i <= len,
            samples@.to_multiset() == orig.to_multiset(),
            forall|p: int, q: int| 0 <= p < q < i ==> sample_le(#[trigger] samples@[p], #[trigger] samples@[q]),
        decreases len - i,
    {
        let mut j: usize = i;
        while j > 0 && (samples[j - 1].0 > samples[j].0 || (samples[j - 1].0 == samples[j].0 && samples[j - 1].2
            > samples[j].2))
            invariant
                len == samples@.len(),
                0 <= j <= i < len,
                samples@.to_multiset() == orig.to_multiset(),
                forall|p: int, q: int|
                    0 <= p < q <= i && p != j && q != j ==> sample_le(#[trigger] samples@[p], #[trigger] samples@[q]),
                forall|q: int| j < q <= i ==> sample_le(samples@[j as int], #[trigger] samples@[q]),
            decreases j,
        {
            let a = samples[j - 1];
            let b = samples[j];
            proof {
                let s0 = samples@;
                let s1 = s0.update(j - 1, b);
                assert(s0[j - 1] == a);
                vstd::seq_lib::to_multiset_update(s0, j - 1, b);
                assert(s1.to_multiset() == s0.to_multiset().insert(b).remove(a));
                let s2 = s1.update(j as int, a);
                assert(s1[j as int] == b);
                vstd::seq_lib::to_multiset_update(s1, j as int, a);
                assert(s2.to_multiset() == s1.to_multiset().insert(a).remove(b));
                assert(s0.to_multiset().count(a) > 0) by {
                    assert(s0.contains(a)) by {
                        assert(s0[j - 1] == a);
                    }
                    s0.to_multiset_ensures();
                }
                assert(s2.to_multiset() =~= s0.to_multiset());
            }
            samples.set(j - 1, b);
            samples.set(j, a);
            j = j - 1;
        }
        assert forall|p: int, q: int| 0 <= p < q <= i implies sample_le(#[trigger] samples@[p], #[trigger] samples@[q]) by {
            if q == j && p < j {
                assert(sample_le(samples@[p], samples@[j - 1]) || p == j - 1);
            }
        }
        i = i + 1;
    }
}

/// `n / d` rounded half away from zero after clamping to the 14-bit domain
/// (`d > 0`); `None` exactly where `16383 * d`, or `2 * n + d` for a
/// quotient strictly inside the domain, leaves an `i128`.
fn round_clamp_wide(n: i128, d: i128) -> (r: Option<u16>)
    requires
        d > 0,
    ensures
        r is Some <==> (16383 * d <= i128::MAX && (n <= 0 || n >= 16383 * d || 2 * n + d <= i128::MAX)),
        r matches Some(v) ==> v as int == round_clamp_14(n as int, d as int) && v <= MAX_14BIT,
{
    let top = match d.checked_mul(16383) {
        Some(v) => v,
        None => return None,
    };
    if n <= 0 {
        Some(0)
    } else if n >= top {
        Some(MAX_14BIT)
    } else {
        assert(0 < 2 * n + d < 32767 * d) by (nonlinear_arith)
            requires
                0 < n < 16383 * d,
                d > 0,
        ;
        let num = match n.checked_mul(2) {
            Some(v) => match v.checked_add(d) {
                Some(w) => w,
                None => return None,
            },
            None => return None,
        };
        let den = match d.checked_mul(2) {
            Some(v) => v,
            None => return None,
        };
        let q: i128 = num / den;
        assert(0 <= q <= 16383) by (nonlinear_arith)
            requires
                q == num / den,
                0 < num < 32767 * d,
                den == 2 * d,
                d > 0,
        ;
        Some(q as u16)
    }
}

/// The input `x / e` truncated toward zero and clamped to `0..=hi`.
fn input_index(x: i128, e: i128, hi: usize) -> (r: usize)
    requires
        e > 0,
        hi <= 16384,
    ensures
        r <= hi,
        r as int == input_index_spec(x as int, e as int, hi as int),
{
    if x <= 0 {
        0
    } else {
        let q: i128 = x / e;
        if q > hi as i128 {
            hi
        } else {
            q as usize
        }
    }
}

/// Whether `t` is drawn from the spline samples of `points` put in order of
/// their inputs (samples of equal input in the order in which they were
/// taken).
pub open spec fn is_spline_table(points: Seq<CurvePoint>, t: Seq<u16>) -> bool {
    exists|sorted: Seq<(i128, i128, usize)>|
        {
            &&& sorted.len() == 1025
            &&& #[trigger] sorted_by_input(sorted)
            &&& sorted.to_multiset() == spline_samples(points).to_multiset()
            &&& forall|i: int|
                0 <= i < 16384 ==> t[i] as int == spline_fill(
                    sorted,
                    spline_scale(spline_order(points.len() as int)),
                    i,
                )
        }
}

/// Two orderings by `sample_le` of the same samples, each sample fixed by
/// its number, are one and the same sequence.
proof fn lemma_sorted_unique(points: Seq<CurvePoint>, a: Seq<(i128, i128, usize)>, b: Seq<(i128, i128, usize)>)
    requires
        sorted_by_input(a),
        sorted_by_input(b),
        a.to_multiset() == b.to_multiset(),
        forall|x: (i128, i128, usize)| a.contains(x) ==> x == spline_sample(points, x.2 as int),
    ensures
        a == b,
    decreases a.len(),
{
    a.to_multiset_ensures();
    b.to_multiset_ensures();
    if a.len() == 0 {
        assert(b.len() == 0);
        assert(a =~= b);
    } else {
        assert(b.len() == a.len());
        let x = a[0];
        let y = b[0];
        assert(b.contains(y));
        assert(b.to_multiset().count(y) > 0);
        assert(a.contains(y));
        let i = choose|i: int| 0 <= i < a.len() && a[i] == y;
        if i > 0 {
            assert(sample_le(a[0], a[i]));
        }
        assert(sample_le(x, y));
        assert(a.contains(x));
        assert(a.to_multiset().count(x) > 0);
        assert(b.contains(x));
        let j = choose|j: int| 0 <= j < b.len() && b[j] == x;
        if j > 0 {
            assert(sample_le(b[0], b[j]));
        }
        assert(sample_le(y, x));
        assert(x == spline_sample(points, x.2 as int));
        assert(y == spline_sample(points, y.2 as int));
        assert(x == y);
        let a1 = a.drop_first();
        let b1 = b.drop_first();
        assert(a.remove(0) =~= a1);
        assert(b.remove(0) =~= b1);
        assert(a1.to_multiset() == a.to_multiset().remove(x));
        assert(b1.to_multiset() == b.to_multiset().remove(y));
        assert forall|p: int, q: int| 0 <= p < q < a1.len() implies sample_le(#[trigger] a1[p], #[trigger] a1[q]) by {
            assert(a1[p] == a[p + 1] && a1[q] == a[q + 1]);
        }
        assert forall|p: int, q: int| 0 <= p < q < b1.len() implies sample_le(#[trigger] b1[p], #[trigger] b1[q]) by {
            assert(b1[p] == b[p + 1] && b1[q] == b[q + 1]);
        }
        assert forall|z: (i128, i128, usize)| a1.contains(z) implies z == spline_sample(points, z.2 as int) by {
            let k = choose|k: int| 0 <= k < a1.len() && a1[k] == z;
            assert(a[k + 1] == z);
            assert(a.contains(z));
        }
        lemma_sorted_unique(points, a1, b1);
        assert(a =~= b) by {
            assert forall|k: int| 0 <= k < a.len() implies a[k] == b[k] by {
                if k > 0 {
                    assert(a[k] == a1[k - 1] && b[k] == b1[k - 1]);
                }
            }
        }
    }
}

/// Every sample in an ordering of the spline samples is the sample its
/// number names.
proof fn lemma_sorted_samples_fixed(points: Seq<CurvePoint>, a: Seq<(i128, i128, usize)>)
    requires
        a.to_multiset() == spline_samples(points).to_multiset(),
    ensures
        forall|x: (i128, i128, usize)| a.contains(x) ==> x == spline_sample(points, x.2 as int),
{
    a.to_multiset_ensures();
    spline_samples(points).to_multiset_ensures();
    assert forall|x: (i128, i128, usize)| a.contains(x) implies x == spline_sample(points, x.2 as int) by {
        assert(a.to_multiset().count(x) > 0);
        assert(spline_samples(points).contains(x));
        let j = choose|j: int| 0 <= j < spline_samples(points).len() && spline_samples(points)[j] == x;
        assert(x == spline_sample(points, j));
        assert(x.2 == j as usize);
    }
}

/// The spline table of a set of points is unique: two tables that are
/// both spline tables of `points` agree everywhere.
pub proof fn lemma_spline_table_unique(points: Seq<CurvePoint>, t1: Seq<u16>, t2: Seq<u16>)
    requires
        is_spline_table(points, t1),
        is_spline_table(points, t2),
    ensures
        forall|i: int| 0 <= i < 16384 ==> t1[i] == t2[i],
{
    let s1 = choose|sorted: Seq<(i128, i128, usize)>|
        {
            &&& sorted.len() == 1025
            &&& #[trigger] sorted_by_input(sorted)
            &&& sorted.to_multiset() == spline_samples(points).to_multiset()
            &&& forall|i: int|
                0 <= i < 16384 ==> t1[i] as int == spline_fill(sorted, spline_scale(spline_order(points.len() as int)), i)
        };
    let s2 = choose|sorted: Seq<(i128, i128, usize)>|
        {
            &&& sorted.len() == 1025
            &&& #[trigger] sorted_by_input(sorted)
            &&& sorted.to_multiset() == spline_samples(points).to_multiset()
            &&& forall|i: int|
                0 <= i < 16384 ==> t2[i] as int == spline_fill(sorted, spline_scale(spline_order(points.len() as int)), i)
        };
    lemma_sorted_samples_fixed(points, s1);
    lemma_sorted_unique(points, s1, s2);
}

/// The 14-bit table of the spline through `points` (three or more): its
/// 1025 samples put in order of their inputs, and the table drawn from them
/// (`spline_fill`). `None` only for 2^48 points or more, beyond the exact
/// arithmetic's range.
pub fn spline_table(points: &Vec<CurvePoint>) -> (r: Option<Box<[u16; 16384]>>)
    requires
        points@.len() >= 3,
    ensures
        points@.len() < 0x1_0000_0000_0000 ==> r is Some,
        r matches Some(t) ==> forall|i: int| 0 <= i < 16384 ==> t@[i] <= MAX_14BIT,
        r matches Some(t) ==> is_spline_table(points@, t@),
{
    let n = points.len();
    if n as u64 >= 0x1_0000_0000_0000u64 {
        return None;
    }
    let k: usize = if n < 4 {
        n
    } else {
        4
    };
    let knots = clamped_knots(n, k);
    proof {
        lemma_knots_unit(n as int, k as int);
    }
    let m: i128 = (n - k + 1) as i128;
    let mut xs: Vec<i128> = Vec::new();
    let mut ys: Vec<i128> = Vec::new();
    let mut p: usize = 0;
    while p < n
        invariant
            0 <= p <= n,
            n == points@.len(),
            xs@.len() == p,
            ys@.len() == p,
            forall|q: int| 0 <= q < p ==> #[trigger] xs@[q] == ctrl_x(points@)[q],
            forall|q: int| 0 <= q < p ==> #[trigger] ys@[q] == ctrl_y(points@)[q],
        decreases n - p,
    {
        xs.push(points[p].x as i128 * 64);
        ys.push(points[p].y as i128 * 64);
        p = p + 1;
    }
    assert(xs@ =~= ctrl_x(points@));
    assert(ys@ =~= ctrl_y(points@));
    assert(forall|j: int| 0 <= j < xs@.len() ==> 0 <= #[trigger] xs@[j] <= 16320);
    assert(forall|j: int| 0 <= j < ys@.len() ==> 0 <= #[trigger] ys@[j] <= 16320);
    let ghost xm: int = (k + 1) * (16320 * basis_bound(k as int));
    assert(xm <= sample_cap()) by (nonlinear_arith)
        requires
            xm == (k + 1) * (16320 * basis_bound(k as int)),
            1 <= k <= 4,
            0 < 16320 * basis_bound(k as int) <= 16320 * basis_bound(4),
            sample_cap() == 200 * (16320 * basis_bound(4)),
    ;
    let mut e: i128 = 1;
    let mut level: usize = 1;
    while level < k
        invariant
            1 <= level <= k <= 4,
            e == spline_scale(level as int),
        decreases k - level,
    {
        e = e * 6144;
        level = level + 1;
    }
    assert(e == spline_scale(spline_order(n as int)));
    let mut samples: Vec<(i128, i128, usize)> = Vec::new();
    let mut s: usize = 0;
    while s <= 1024
        invariant
            0 <= s <= 1025,
            samples@.len() == s,
            n == points@.len(),
            n < 0x1_0000_0000_0000,
            k == spline_order(n as int),
            1 <= k <= 4,
            m == n - k + 1,
            1 <= m <= 0x1_0000_0000_0000,
            knots@ == knots_spec(n as int, k as int),
            xs@ == ctrl_x(points@),
            ys@ == ctrl_y(points@),
            xs@.len() == n,
            ys@.len() == n,
            forall|j: int| 0 <= j < knots@.len() ==> 0 <= #[trigger] knots@[j] <= 0x1_0000_0000_0000,
            unit_knots(knots@),
            knots@[knots@.len() - 1] == m,
            forall|j: int| 0 <= j < xs@.len() ==> 0 <= #[trigger] xs@[j] <= 16320,
            forall|j: int| 0 <= j < ys@.len() ==> 0 <= #[trigger] ys@[j] <= 16320,
            xm == (k + 1) * (16320 * basis_bound(k as int)),
            forall|q: int| 0 <= q < s ==> #[trigger] samples@[q] == spline_sample(points@, q),
            forall|q: int| 0 <= q < s ==> 0 <= #[trigger] samples@[q].0 <= xm && 0 <= samples@[q].1 <= xm,
        decreases 1025 - s,
    {
        assert(0 <= s * m <= 1024 * 0x1_0000_0000_0000) by (nonlinear_arith)
            requires
                0 <= s <= 1024,
                1 <= m <= 0x1_0000_0000_0000,
        ;
        let u: i128 = s as i128 * m;
        assert(u <= knots@[knots@.len() - 1] * 1024) by (nonlinear_arith)
            requires
                u == s * m,
                s <= 1024,
                m > 0,
                knots@[knots@.len() - 1] == m,
        ;
        let xt = match spline_value(&xs, &knots, k, u) {
            Some(v) => v,
            None => return None,
        };
        let yt = match spline_value(&ys, &knots, k, u) {
            Some(v) => v,
            None => return None,
        };
        samples.push((xt, yt, s));
        s = s + 1;
    }
    assert(samples@ =~= spline_samples(points@));
    let ghost unsorted = samples@;
    sort_by_input(&mut samples);
    let ghost sorted = samples@;
    assert forall|p: int| 0 <= p < sorted.len() implies 0 <= #[trigger] sorted[p].0 <= xm && 0 <= sorted[p].1
        <= xm by {
        sorted.to_multiset_ensures();
        unsorted.to_multiset_ensures();
        assert(sorted.contains(sorted[p]));
        assert(sorted.to_multiset().count(sorted[p]) > 0);
        assert(unsorted.to_multiset().count(sorted[p]) > 0);
        assert(unsorted.contains(sorted[p]));
        let q = choose|q: int| 0 <= q < unsorted.len() && unsorted[q] == sorted[p];
        assert(unsorted[q] == samples@[p]);
    }
    let mut lut = Box::new([0u16; 16384]);
    assert(forall|i: int| 0 <= i < 16384 ==> lut@[i] == 0);
    let (fx, fy, _) = samples[0];
    let first_y = match round_clamp_wide(fy, e) {
        Some(v) => v,
        None => return None,
    };
    let first_x = input_index(fx, e, 16384);
    let mut i: usize = 0;
    while i < first_x
        invariant
            0 <= i <= first_x <= 16384,
            first_y <= MAX_14BIT,
            forall|q: int| 0 <= q < 16384 ==> lut@[q] <= MAX_14BIT,
            forall|q: int| 0 <= q < i ==> #[trigger] lut@[q] == first_y,
            forall|q: int| i <= q < 16384 ==> #[trigger] lut@[q] == 0,
        decreases first_x - i,
    {
        lut[i] = first_y;
        i = i + 1;
    }
    assert forall|q: int| 0 <= q < 16384 implies #[trigger] lut@[q] as int == fill_after(sorted, e as int, 0, q) by {
        if q < first_x {
            assert(lut@[q] == first_y);
        } else {
            assert(lut@[q] == 0);
        }
    }
    let mut w: usize = 0;
    while w < 1024
        invariant
            0 <= w <= 1024,
            samples@ == sorted,
            sorted.len() == 1025,
            e > 0,
            e <= spline_scale(4),
            n == points@.len(),
            xm <= sample_cap(),
            forall|p: int| 0 <= p < sorted.len() ==> 0 <= #[trigger] sorted[p].0 <= xm && 0 <= sorted[p].1 <= xm,
            forall|q: int| 0 <= q < 16384 ==> lut@[q] <= MAX_14BIT,
            forall|q: int| 0 <= q < 16384 ==> #[trigger] lut@[q] as int == fill_after(sorted, e as int, w as int, q),
        decreases 1024 - w,
    {
        let (x0, y0, _) = samples[w];
        let (x1, y1, _) = samples[w + 1];
        let x0_i = input_index(x0, e, 16383);
        let x1_i = input_index(x1, e, 16383);
        if x1_i > x0_i {
            proof {
                if x1 <= x0 {
                    lemma_index_monotone(x1 as int, x0 as int, e as int, 16383);
                }
                assert(0 <= x0 <= xm && 0 <= y0 <= xm);
                assert(0 <= x1 <= xm && 0 <= y1 <= xm);
                lemma_window_fits(x0 as int, y0 as int, x1 as int, y1 as int, e as int, 0, xm);
            }
            if x1 <= x0 {
                return None;
            }
            let dx: i128 = match x1.checked_sub(x0) {
                Some(v) => v,
                None => return None,
            };
            let d = match e.checked_mul(dx) {
                Some(v) => v,
                None => return None,
            };
            assert(d > 0) by (nonlinear_arith)
                requires
                    d == e * dx,
                    e > 0,
                    dx > 0,
            ;
            let dy = match y1.checked_sub(y0) {
                Some(v) => v,
                None => return None,
            };
            let base = match y0.checked_mul(dx) {
                Some(v) => v,
                None => return None,
            };
            let mut j: usize = x0_i;
            while j <= x1_i
                invariant
                    x0_i <= j <= x1_i + 1,
                    x1_i <= 16383,
                    d > 0,
                    d == e * dx,
                    dx == x1 - x0,
                    dy == y1 - y0,
                    base == y0 * dx,
                    samples@ == sorted,
                    x0 == sorted[w as int].0,
                    y0 == sorted[w as int].1,
                    x1 == sorted[w + 1].0,
                    y1 == sorted[w + 1].1,
                    0 <= x0 < x1 <= xm,
                    0 <= y0 <= xm,
                    0 <= y1 <= xm,
                    0 < e <= spline_scale(4),
                    n == points@.len(),
                    xm <= sample_cap(),
                    forall|q: int| 0 <= q < 16384 ==> lut@[q] <= MAX_14BIT,
                    forall|q: int|
                        0 <= q < 16384 && x0_i <= q < j ==> #[trigger] lut@[q] as int == window_value(
                            sorted,
                            e as int,
                            w as int,
                            q,
                        ),
                    forall|q: int|
                        0 <= q < 16384 && !(x0_i <= q < j) ==> #[trigger] lut@[q] as int == fill_after(
                            sorted,
                            e as int,
                            w as int,
                            q,
                        ),
                decreases x1_i + 1 - j,
            {
                proof {
                    lemma_window_fits(x0 as int, y0 as int, x1 as int, y1 as int, e as int, j as int, xm);
                    assert(0 <= j * e <= 16383 * spline_scale(4)) by (nonlinear_arith)
                        requires
                            0 <= j <= 16383,
                            0 < e <= spline_scale(4),
                    ;
                }
                let at = match (j as i128).checked_mul(e) {
                    Some(v) => match v.checked_sub(x0) {
                        Some(z) => z,
                        None => return None,
                    },
                    None => return None,
                };
                let rise = match at.checked_mul(dy) {
                    Some(v) => v,
                    None => return None,
                };
                let num = match base.checked_add(rise) {
                    Some(v) => v,
                    None => return None,
                };
                let v = match round_clamp_wide(num, d) {
                    Some(v) => v,
                    None => return None,
                };
                lut[j] = v;
                j = j + 1;
            }
            assert forall|q: int| 0 <= q < 16384 implies #[trigger] lut@[q] as int == fill_after(
                sorted,
                e as int,
                w + 1,
                q,
            ) by {
                assert(window_covers(sorted, e as int, w as int, q) == (x0_i <= q <= x1_i));
            }
        } else {
            assert forall|q: int| 0 <= q < 16384 implies #[trigger] lut@[q] as int == fill_after(
                sorted,
                e as int,
                w + 1,
                q,
            ) by {
                assert(!window_covers(sorted, e as int, w as int, q));
            }
        }
        w = w + 1;
    }
    let (lx, ly, _) = samples[1024];
    let last_y = match round_clamp_wide(ly, e) {
        Some(v) => v,
        None => return None,
    };
    let last_x = input_index(lx, e, 16384);
    let mut q: usize = last_x + 1;
    while q < 16384
        invariant
            last_x + 1 <= q,
            last_y <= MAX_14BIT,
            forall|z: int| 0 <= z < 16384 ==> lut@[z] <= MAX_14BIT,
            forall|z: int| 0 <= z < 16384 && last_x < z < q ==> #[trigger] lut@[z] == last_y,
            forall|z: int|
                0 <= z < 16384 && !(last_x < z < q) ==> #[trigger] lut@[z] as int == fill_after(
                    sorted,
                    e as int,
                    1024,
                    z,
                ),
        decreases 16384 - q,
    {
        lut[q] = last_y;
        q = q + 1;
    }
    assert forall|z: int| 0 <= z < 16384 implies #[trigger] lut@[z] as int == spline_fill(sorted, e as int, z) by {
        if z > last_x {
            assert(lut@[z] == last_y);
        }
    }
    assert(sorted_by_input(sorted));
    assert(sorted.to_multiset() == spline_samples(points@).to_multiset());
    assert(is_spline_table(points@, lut@));
    Some(lut)
}

} // verus!
