//! The user gradation curve, tabulated over the 14-bit domain.
//!
//! Control points are bytes; on the 14-bit domain a byte `b` stands at
//! `b * 64`. No control point gives the identity table, one gives a constant,
//! and two give a line between them, flat outside: up to the first point at
//! the first point's level, after the second at the second's. Between the
//! points the level is interpolated linearly and rounded half away from zero.
//! A curve through three or more points is a B-spline, tabulated by
//! `spline::spline_table`.
use vstd::prelude::*;

use super::spline::{is_spline_table, lemma_spline_table_unique, spline_table};
use super::{round_clamp_14, Curve, MAX_14BIT};

verus! {

/// A control point: byte coordinates and a marker byte.
#[derive(Debug, Clone, Copy, PartialEq, Eq, Structural)]
pub struct CurvePoint {
    /// Input level, 0..=255.
    pub x: u8,
    /// Output level, 0..=255.
    pub y: u8,
    /// Marker byte carried with the point.
    pub dy: u8,
}

impl CurvePoint {
    /// The point `(x, y)` with marker `dy`.
    pub fn new(x: u8, y: u8, dy: u8) -> (r: Self)
        ensures
            r == (CurvePoint { x, y, dy }),
    {
        CurvePoint { x, y, dy }
    }

    /// The input level on the 14-bit domain, `x * 64`.
    pub fn x_14bit(&self) -> (r: u32)
        ensures
            r == self.x * 64,
    {
        self.x as u32 * 64
    }

    /// The output level on the 14-bit domain, `y * 64`.
    pub fn y_14bit(&self) -> (r: u32)
        ensures
            r == self.y * 64,
    {
        self.y as u32 * 64
    }
}

/// Table entry `i` of the line through `p0` and `p1`.
pub open spec fn two_point_value(p0: CurvePoint, p1: CurvePoint, i: int) -> u16 {
    let x0 = p0.x * 64;
    let y0 = p0.y * 64;
    let x1 = p1.x * 64;
    let y1 = p1.y * 64;
    if i > x1 {
        y1 as u16
    } else if x1 <= x0 || i < x0 {
        y0 as u16
    } else {
        round_clamp_14(y0 * (x1 - x0) + (i - x0) * (y1 - y0), x1 - x0) as u16
    }
}

/// Table entry `i` of the curve through at most two control points.
pub open spec fn point_table_value(points: Seq<CurvePoint>, i: int) -> u16 {
    if points.len() == 0 {
        i as u16
    } else if points.len() == 1 {
        (points[0].y * 64) as u16
    } else {
        two_point_value(points[0], points[1], i)
    }
}

/// The user curve and its table.
pub struct PointCurve {
    /// The control points.
    pub points: Vec<CurvePoint>,
    /// The table over the 14-bit domain.
    pub lut: Box<[u16; 16384]>,
    /// Whether the curve is switched on.
    pub enabled: bool,
}

fn two_point_exec(p0: CurvePoint, p1: CurvePoint, i: usize) -> (r: u16)
    requires
        i < 16384,
    ensures
        r == two_point_value(p0, p1, i as int),
{
    let x0: i64 = p0.x as i64 * 64;
    let y0: i64 = p0.y as i64 * 64;
    let x1: i64 = p1.x as i64 * 64;
    let y1: i64 = p1.y as i64 * 64;
    let ii: i64 = i as i64;
    if ii > x1 {
        y1 as u16
    } else if x1 <= x0 || ii < x0 {
        y0 as u16
    } else {
        let dx: i64 = x1 - x0;
        let t: i64 = ii - x0;
        assert(0 <= y0 * dx <= 16320 * 16320) by (nonlinear_arith)
            requires
                0 <= y0 <= 16320,
                0 < dx <= 16320,
        ;
        assert(-16320 * 16320 <= t * (y1 - y0) <= 16320 * 16320) by (nonlinear_arith)
            requires
                0 <= t <= 16320,
                -16320 <= y1 - y0 <= 16320,
        ;
        let n: i64 = y0 * dx + t * (y1 - y0);
        super::round_clamp_14_exec(n, dx)
    }
}

fn table_entry(points: &Vec<CurvePoint>, i: usize) -> (r: u16)
    requires
        points@.len() <= 2,
        i < 16384,
    ensures
        r == point_table_value(points@, i as int),
{
    if points.len() == 0 {
        i as u16
    } else if points.len() == 1 {
        (points[0].y as u16) * 64
    } else {
        two_point_exec(points[0], points[1], i)
    }
}

impl PointCurve {
    /// The curve through the given points, switched on. Through three or more
    /// points its table is the spline table; `None` comes back only for 2^48
    /// points or more.
    pub fn from_points(points: Vec<CurvePoint>) -> (r: Option<Self>)
        ensures
            points@.len() < 0x1_0000_0000_0000 ==> r.is_some(),
            r matches Some(c) ==> {
                &&& c.points@ == points@
                &&& c.enabled
                &&& points@.len() <= 2 ==> forall|i: int| 0 <= i < 16384 ==> c.lut@[i] == point_table_value(points@, i)
                &&& points@.len() >= 3 ==> is_spline_table(points@, c.lut@)
                &&& points@.len() >= 3 ==> forall|i: int| 0 <= i < 16384 ==> c.lut@[i] <= MAX_14BIT
                &&& is_point_table(points@, c.lut@)
                &&& point_table_shape(points@, c.lut@)
            },
    {
        if points.len() > 2 {
            return match spline_table(&points) {
                Some(lut) => {
                    proof {
                        lemma_point_table_shape(points@, lut@);
                    }
                    Some(PointCurve { points, lut, enabled: true })
                },
                None => None,
            };
        }
        let mut lut = Box::new([0u16; 16384]);
        let mut i: usize = 0;
        while i < 16384
            invariant
                0 <= i <= 16384,
                points@.len() <= 2,
                forall|j: int| 0 <= j < i ==> lut@[j] == point_table_value(points@, j),
            decreases 16384 - i,
        {
            let v = table_entry(&points, i);
            lut[i] = v;
            i = i + 1;
        }
        proof {
            assert forall|i: int| 0 <= i < 16384 implies lut@[i] <= MAX_14BIT by {
                lemma_point_value_facts(points@, i);
            }
            lemma_point_table_shape(points@, lut@);
        }
        Some(PointCurve { points, lut, enabled: true })
    }

    /// The identity curve: the two points (0, 0) and (255, 255).
    pub fn identity() -> (r: Self)
        ensures
            r.points@ == seq![CurvePoint { x: 0, y: 0, dy: 1 }, CurvePoint { x: 255, y: 255, dy: 1 }],
            r.enabled,
            forall|i: int| 0 <= i < 16384 ==> r.lut@[i] == point_table_value(r.points@, i),
    {
        let points = vec![CurvePoint::new(0, 0, 1), CurvePoint::new(255, 255, 1)];
        match PointCurve::from_points(points) {
            Some(c) => c,
            None => {
                assert(false);
                PointCurve { points: Vec::new(), lut: Box::new([0u16; 16384]), enabled: true }
            },
        }
    }

    /// The curve through points given as `(x, y, dy)` triples, each clamped to
    /// 0..=255, as `from_points` builds it.
    pub fn from_xml_points(xml_points: &[(i64, i64, i64)]) -> (r: Option<Self>)
        ensures
            xml_points@.len() < 0x1_0000_0000_0000 ==> r.is_some(),
            r matches Some(c) ==> {
                &&& c.points@.len() == xml_points@.len()
                &&& forall|k: int| 0 <= k < xml_points@.len() ==> #[trigger] c.points@[k] == (CurvePoint {
                    x: clamp_byte(xml_points@[k].0) as u8,
                    y: clamp_byte(xml_points@[k].1) as u8,
                    dy: clamp_byte(xml_points@[k].2) as u8,
                })
                &&& c.enabled
                &&& xml_points@.len() <= 2 ==> forall|i: int| 0 <= i < 16384 ==> c.lut@[i] == point_table_value(c.points@, i)
                &&& xml_points@.len() >= 3 ==> is_spline_table(c.points@, c.lut@)
                &&& xml_points@.len() >= 3 ==> forall|i: int| 0 <= i < 16384 ==> c.lut@[i] <= MAX_14BIT
                &&& is_point_table(c.points@, c.lut@)
            },
    {
        let mut points: Vec<CurvePoint> = Vec::new();
        let mut k: usize = 0;
        while k < xml_points.len()
            invariant
                0 <= k <= xml_points@.len(),
                points@.len() == k,
                forall|m: int| 0 <= m < k ==> #[trigger] points@[m] == (CurvePoint {
                    x: clamp_byte(xml_points@[m].0) as u8,
                    y: clamp_byte(xml_points@[m].1) as u8,
                    dy: clamp_byte(xml_points@[m].2) as u8,
                }),
            decreases xml_points@.len() - k,
        {
            let (x, y, dy) = xml_points[k];
            points.push(CurvePoint::new(clamp_byte_exec(x), clamp_byte_exec(y), clamp_byte_exec(dy)));
            k = k + 1;
        }
        PointCurve::from_points(points)
    }

    /// The identity curve, switched off.
    pub fn disabled() -> (r: Self)
        ensures
            r.points@ == seq![CurvePoint { x: 0, y: 0, dy: 1 }, CurvePoint { x: 255, y: 255, dy: 1 }],
            !r.enabled,
            forall|i: int| 0 <= i < 16384 ==> r.lut@[i] == point_table_value(r.points@, i),
    {
        let mut s = PointCurve::identity();
        s.enabled = false;
        s
    }

    /// Whether the points are exactly (0, 0) and (255, 255), whatever their markers.
    pub fn is_identity(&self) -> (r: bool)
        ensures
            r == (self.points@.len() == 2 && self.points@[0].x == 0 && self.points@[0].y == 0
                && self.points@[1].x == 255 && self.points@[1].y == 255),
    {
        self.points.len() == 2 && self.points[0].x == 0 && self.points[0].y == 0
            && self.points[1].x == 255 && self.points[1].y == 255
    }
}

/// Whether `t` is the table `from_points` builds for `points`: the line
/// table (`point_table_value`) for at most two points, the spline table for
/// more, and every entry within the 14-bit domain.
pub open spec fn is_point_table(points: Seq<CurvePoint>, t: Seq<u16>) -> bool {
    &&& points.len() <= 2 ==> forall|i: int| 0 <= i < 16384 ==> t[i] == point_table_value(points, i)
    &&& points.len() >= 3 ==> is_spline_table(points, t)
    &&& forall|i: int| 0 <= i < 16384 ==> t[i] <= MAX_14BIT
}

/// Rounding `y * d / d` gives `y` back.
proof fn lemma_round_exact(y: int, d: int)
    requires
        0 <= y <= 16383,
        d > 0,
    ensures
        round_clamp_14(y * d, d) == y,
{
    if 0 < y < 16383 {
        assert(0 < y * d < 16383 * d) by (nonlinear_arith)
            requires
                0 < y < 16383,
                d > 0,
        ;
        assert(2 * (y * d) + d == y * (2 * d) + d) by (nonlinear_arith);
        vstd::arithmetic::div_mod::lemma_fundamental_div_mod_converse(2 * (y * d) + d, 2 * d, y, d);
    } else if y == 0 {
        assert(y * d == 0) by (nonlinear_arith)
            requires
                y == 0,
        ;
    } else {
        assert(y * d == 16383 * d) by (nonlinear_arith)
            requires
                y == 16383,
        ;
    }
}

/// Facts of the line table through at most two points: it stays in the
/// 14-bit domain, and it is flat at the first point's level up to the first
/// point and at the second point's level from the second point on.
proof fn lemma_point_value_facts(points: Seq<CurvePoint>, i: int)
    requires
        points.len() <= 2,
        0 <= i < 16384,
    ensures
        point_table_value(points, i) <= MAX_14BIT,
        points.len() == 2 && points[0].x < points[1].x && i <= points[0].x * 64 ==> point_table_value(points, i)
            == points[0].y * 64,
        points.len() == 2 && points[0].x < points[1].x && i >= points[1].x * 64 ==> point_table_value(points, i)
            == points[1].y * 64,
{
    if points.len() == 2 {
        let p0 = points[0];
        let p1 = points[1];
        let x0 = p0.x * 64;
        let y0 = p0.y * 64;
        let x1 = p1.x * 64;
        let y1 = p1.y * 64;
        if !(i > x1) && !(x1 <= x0 || i < x0) {
            let d = x1 - x0;
            let n = y0 * d + (i - x0) * (y1 - y0);
            if n > 0 && n < 16383 * d {
                assert((2 * n + d) / (2 * d) <= 16383) by (nonlinear_arith)
                    requires
                        0 < n < 16383 * d,
                        d > 0,
                ;
            }
            if i == x0 {
                assert(n == y0 * d) by (nonlinear_arith)
                    requires
                        n == y0 * d + (i - x0) * (y1 - y0),
                        i == x0,
                ;
                lemma_round_exact(y0, d);
            }
            if i == x1 {
                assert(n == y1 * d) by (nonlinear_arith)
                    requires
                        n == y0 * d + (i - x0) * (y1 - y0),
                        i == x1,
                        d == x1 - x0,
                ;
                lemma_round_exact(y1, d);
            }
        }
    }
}

/// What the table of a point curve says (laws of `from_points` and
/// `from_xml_points`): every entry is within the 14-bit domain; no point
/// gives the identity, one point a constant at its level; two points with
/// increasing inputs give their levels up to the first and from the second
/// point on; the identity shape (0, 0), (255, 255), whatever the markers,
/// gives `min(i, 16320)`.
pub proof fn lemma_point_table_laws(points: Seq<CurvePoint>, t: Seq<u16>, i: int)
    requires
        is_point_table(points, t),
        0 <= i < 16384,
    ensures
        t[i] <= MAX_14BIT,
        points.len() == 0 ==> t[i] == i,
        points.len() == 1 ==> t[i] == points[0].y * 64,
        points.len() == 2 && points[0].x < points[1].x && i <= points[0].x * 64 ==> t[i] == points[0].y * 64,
        points.len() == 2 && points[0].x < points[1].x && i >= points[1].x * 64 ==> t[i] == points[1].y * 64,
        points.len() == 2 && points[0].x == 0 && points[0].y == 0 && points[1].x == 255 && points[1].y == 255
            ==> t[i] == if i <= 16320 { i } else { 16320 },
{
    if points.len() <= 2 {
        lemma_point_value_facts(points, i);
        if points.len() == 2 && points[0].x == 0 && points[0].y == 0 && points[1].x == 255 && points[1].y == 255 {
            let std_pts = seq![CurvePoint { x: 0, y: 0, dy: 1 }, CurvePoint { x: 255, y: 255, dy: 1 }];
            lemma_identity_table(i);
            assert(point_table_value(points, i) == point_table_value(std_pts, i));
        }
    }
}

/// The shape of a point curve's table over the whole 14-bit domain (the
/// laws of `lemma_point_table_laws`, for every entry).
pub open spec fn point_table_shape(points: Seq<CurvePoint>, t: Seq<u16>) -> bool {
    forall|i: int|
        0 <= i < 16384 ==> {
            &&& #[trigger] t[i] <= MAX_14BIT
            &&& points.len() == 0 ==> t[i] == i
            &&& points.len() == 1 ==> t[i] == points[0].y * 64
            &&& points.len() == 2 && points[0].x < points[1].x && i <= points[0].x * 64 ==> t[i] == points[0].y * 64
            &&& points.len() == 2 && points[0].x < points[1].x && i >= points[1].x * 64 ==> t[i] == points[1].y * 64
            &&& points.len() == 2 && points[0].x == 0 && points[0].y == 0 && points[1].x == 255 && points[1].y == 255
                ==> t[i] == if i <= 16320 { i } else { 16320 }
        }
}

proof fn lemma_point_table_shape(points: Seq<CurvePoint>, t: Seq<u16>)
    requires
        is_point_table(points, t),
    ensures
        point_table_shape(points, t),
{
    assert forall|i: int| 0 <= i < 16384 implies {
        &&& #[trigger] t[i] <= MAX_14BIT
        &&& points.len() == 0 ==> t[i] == i
        &&& points.len() == 1 ==> t[i] == points[0].y * 64
        &&& points.len() == 2 && points[0].x < points[1].x && i <= points[0].x * 64 ==> t[i] == points[0].y * 64
        &&& points.len() == 2 && points[0].x < points[1].x && i >= points[1].x * 64 ==> t[i] == points[1].y * 64
        &&& points.len() == 2 && points[0].x == 0 && points[0].y == 0 && points[1].x == 255 && points[1].y == 255
            ==> t[i] == if i <= 16320 { i } else { 16320 }
    } by {
        lemma_point_table_laws(points, t, i);
    }
}

/// The table of a point curve is determined by its points: two tables that
/// are both `is_point_table` of the same points agree everywhere. So the
/// table `from_xml_points` builds is the one `from_points` builds for the
/// clamped points, and a lightness table is the table of its four points.
pub proof fn lemma_point_table_unique(points: Seq<CurvePoint>, t1: Seq<u16>, t2: Seq<u16>)
    requires
        is_point_table(points, t1),
        is_point_table(points, t2),
    ensures
        forall|i: int| 0 <= i < 16384 ==> t1[i] == t2[i],
{
    if points.len() >= 3 {
        lemma_spline_table_unique(points, t1, t2);
    }
}

/// `v` clamped to 0..=255.
pub open spec fn clamp_byte(v: i64) -> int {
    if v < 0 {
        0
    } else if v > 255 {
        255
    } else {
        v as int
    }
}

fn clamp_byte_exec(v: i64) -> (r: u8)
    ensures
        r == clamp_byte(v),
{
    if v < 0 {
        0
    } else if v > 255 {
        255
    } else {
        v as u8
    }
}

impl Curve for PointCurve {
    open spec fn curve_value(&self, x: u16) -> u16 {
        if !self.enabled {
            x
        } else {
            self.lut@[super::single_point::table_index(x)]
        }
    }

    fn compute_single(&self, x: u16) -> (r: u16) {
        if !self.enabled {
            return x;
        }
        let idx: usize = if x > MAX_14BIT {
            16383
        } else {
            x as usize
        };
        self.lut[idx]
    }

    fn build_lut(&self, lut: &mut [u16; 16384]) {
        let mut i: usize = 0;
        while i < 16384
            invariant
                0 <= i <= 16384,
                forall|j: int| 0 <= j < i ==> lut@[j] == self.curve_value(j as u16),
            decreases 16384 - i,
        {
            let v: u16 = if self.enabled {
                self.lut[i]
            } else {
                i as u16
            };
            lut[i] = v;
            i = i + 1;
        }
    }

    fn enabled(&self) -> (r: bool)
        ensures
            r == self.enabled,
    {
        self.enabled
    }
}

/// The identity curve's table is the identity up to 16320 (the 14-bit image
/// of byte 255) and flat at 16320 above it.
pub proof fn lemma_identity_table(i: int)
    requires
        0 <= i < 16384,
    ensures
        point_table_value(
            seq![CurvePoint { x: 0, y: 0, dy: 1 }, CurvePoint { x: 255, y: 255, dy: 1 }],
            i,
        ) == if i <= 16320 {
            i
        } else {
            16320
        },
{
    let pts = seq![CurvePoint { x: 0, y: 0, dy: 1 }, CurvePoint { x: 255, y: 255, dy: 1 }];
    assert(pts.len() == 2);
    if 0 < i <= 16320 {
        let n = 0 * (16320 - 0) + (i - 0) * (16320 - 0);
        assert((2 * n + 16320) / (2 * 16320int) == i) by (nonlinear_arith)
            requires
                n == i * 16320,
        ;
    }
}

/// A single control point gives a constant table.
pub proof fn lemma_single_point_constant(p: CurvePoint, i: int, j: int)
    ensures
        point_table_value(seq![p], i) == point_table_value(seq![p], j),
        point_table_value(seq![p], i) == p.y * 64,
{
}

} // verus!
