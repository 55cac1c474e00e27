use fff_viewer::color::flex::curves::aggregate::AggregateCurve;
use fff_viewer::color::flex::curves::contrast::ContrastCurve;
use fff_viewer::color::flex::curves::high_shadow::{HighShadowCurve, HighlightMode, ShadowMode};
use fff_viewer::color::flex::curves::single_point::SinglePointCurve;
use fff_viewer::color::flex::curves::{CompositionMode, Curve, MAX_14BIT, PIVOT_14BIT};
use fff_viewer::color::flex::curves::table::TableCurve;

struct ConstCurve(u16);
impl Curve for ConstCurve {
    fn curve_value(&self, x: u16) -> u16 {
        self.compute_single(x)
    }

    fn compute_single(&self, _x: u16) -> u16 {
        self.0
    }
}

struct IdentityCurve;
impl Curve for IdentityCurve {
    fn curve_value(&self, x: u16) -> u16 {
        self.compute_single(x)
    }

    fn compute_single(&self, x: u16) -> u16 {
        x
    }
}

struct AddDeltaCurve(i32);
impl Curve for AddDeltaCurve {
    fn curve_value(&self, x: u16) -> u16 {
        self.compute_single(x)
    }

    fn compute_single(&self, x: u16) -> u16 {
        ((x as i32 + self.0) & 0xFFFF) as u16
    }
}

#[test]
fn empty_aggregate_is_identity() {
    let agg = AggregateCurve::new();
    for i in (0..16384u16).step_by(173) {
        assert_eq!(agg.compute_single(i), i);
    }
}

#[test]
fn single_sequential_child() {
    let agg = AggregateCurve::new().add_seq(Box::new(IdentityCurve));
    assert_eq!(agg.compute_single(5000), 5000);
}

#[test]
fn sequential_chain_composes() {
    let agg = AggregateCurve::new()
        .add_seq(Box::new(AddDeltaCurve(100)))
        .add_seq(Box::new(AddDeltaCurve(200)));
    assert_eq!(agg.compute_single(5000), 5300);
}

#[test]
fn mode_sequential_updates_last_m0() {
    let agg = AggregateCurve::new()
        .add(Box::new(ConstCurve(999)), CompositionMode::Sequential)
        .add(Box::new(ConstCurve(10)), CompositionMode::AddDelta);
    assert_eq!(agg.compute_single(5000), 999 + 10);
}

#[test]
fn mode2_clamps_to_zero() {
    let agg = AggregateCurve::new()
        .add(Box::new(ConstCurve(100)), CompositionMode::Sequential)
        .add(Box::new(ConstCurve(500)), CompositionMode::SubClamp);
    assert_eq!(agg.compute_single(5000), 0);
}

#[test]
fn mode2_clamps_to_max() {
    let agg = AggregateCurve::new()
        .add(Box::new(ConstCurve(100)), CompositionMode::Sequential)
        .add(Box::new(ConstCurve(0)), CompositionMode::SubClamp);
    assert_eq!(agg.compute_single(5000), 100);
}

#[test]
fn sub_clamp_normal_case() {
    let agg = AggregateCurve::new()
        .add(Box::new(ConstCurve(1000)), CompositionMode::Sequential)
        .add(Box::new(ConstCurve(300)), CompositionMode::SubClamp);
    assert_eq!(agg.compute_single(5000), 700);
}

#[test]
fn build_lut_for_aggregate() {
    let agg = AggregateCurve::new().add_seq(Box::new(AddDeltaCurve(100)));
    let mut lut = Box::new([0u16; 16384]);
    agg.build_lut(&mut *lut);
    for i in (0..16384usize).step_by(97) {
        let expected = ((i + 100) & 0xFFFF) as u16;
        assert_eq!(lut[i], expected);
    }
}

#[test]
fn nested_aggregate() {
    let inner = AggregateCurve::new().add_seq(Box::new(AddDeltaCurve(50)));
    let outer = AggregateCurve::new()
        .add_seq(Box::new(inner))
        .add_seq(Box::new(AddDeltaCurve(50)));
    assert_eq!(outer.compute_single(1000), 1100);
}

// ─── contrast ────────────────────────────────────────────────────────────

const TOLERANCE: i32 = 2;

fn assert_close(actual: u16, expected: i32, label: &str) {
    let diff = (actual as i32 - expected).abs();
    assert!(
        diff <= TOLERANCE,
        "{}: got {}, expected {} (diff {})",
        label,
        actual,
        expected,
        diff
    );
}

#[test]
fn zero_sliders_is_identity() {
    let cc = ContrastCurve::new(0, 0);
    for i in (0..16384u16).step_by(173) {
        let out = cc.compute_single(i);
        assert_eq!(out, i, "v={} should be identity", i);
    }
}

#[test]
fn pivot_fixed_at_8192() {
    for c in [-100i8, -50, 0, 50, 100] {
        let cc = ContrastCurve::new(c, 0);
        assert_eq!(cc.compute_single(PIVOT_14BIT), PIVOT_14BIT, "C={}", c);
    }
}

#[test]
fn endpoints_preserved_for_contrast_only() {
    let cc = ContrastCurve::new(50, 0);
    assert_eq!(cc.compute_single(0), 0);
    assert_eq!(cc.compute_single(MAX_14BIT), MAX_14BIT);
}

#[test]
fn contrast_20_matches_docs_table() {
    let cc = ContrastCurve::new(20, 0);
    assert_close(cc.compute_single(1024), 666, "v=1024");
    assert_close(cc.compute_single(4096), 3277, "v=4096");
    assert_eq!(cc.compute_single(8192), 8192);
    assert_close(cc.compute_single(12288), 13107, "v=12288");
}

#[test]
fn contrast_negative_inverts_s_curve() {
    let cc = ContrastCurve::new(-20, 0);
    assert!(cc.compute_single(4096) > 4096, "C<0 lifts the shadows");
    assert!(cc.compute_single(12288) < 12288, "C<0 lowers the highlights");
}

#[test]
fn brightness_positive_lifts_whole_curve() {
    let cc = ContrastCurve::new(0, 50);
    assert_eq!(cc.compute_single(0), 0);
    let mid = cc.compute_single(8192);
    assert!(mid > 8192);
}

#[test]
fn brightness_negative_darkens() {
    let cc = ContrastCurve::new(0, -50);
    assert_eq!(cc.compute_single(MAX_14BIT), MAX_14BIT);
    let mid = cc.compute_single(8192);
    assert!(mid < 8192);
}

#[test]
fn clamp_at_bounds() {
    let cc = ContrastCurve::new(100, 100);
    for i in (0..16384u16).step_by(97) {
        let out = cc.compute_single(i);
        assert!(out <= MAX_14BIT, "v={} out={} above the 14-bit maximum", i, out);
    }
}

#[test]
fn build_lut_matches_compute_single() {
    let cc = ContrastCurve::new(20, 0);
    let mut lut = Box::new([0u16; 16384]);
    cc.build_lut(&mut *lut);
    for i in (0..16384usize).step_by(97) {
        assert_eq!(lut[i], cc.compute_single(i as u16), "i={}", i);
    }
}

#[test]
fn contrast_disabled_is_passthrough() {
    let cc = ContrastCurve::with_enabled(50, 50, false);
    for i in (0..16384u16).step_by(163) {
        assert_eq!(cc.compute_single(i), i);
    }
}

#[test]
fn contrast_exact_values() {
    // v = 1024, C = 0.8: 1024 - 0.8 * 1024 * 7168 / 16384 = 665.6 -> 666
    assert_eq!(ContrastCurve::new(20, 0).compute_single(1024), 666);
    // v = 8192, brightness 50 (B = 8192): 16384 -> clamped
    assert_eq!(ContrastCurve::new(0, 50).compute_single(8192), MAX_14BIT);
    // v = 4096, brightness 25: 4096 + 4096 * 4096 / 8192 = 6144
    assert_eq!(ContrastCurve::new(0, 25).compute_single(4096), 6144);
    // v = 16383 with strong negative contrast moves the top sample down.
    assert_eq!(ContrastCurve::new(-128, 0).compute_single(MAX_14BIT), 16380);
    assert_eq!(ContrastCurve::new(-25, 0).compute_single(MAX_14BIT), MAX_14BIT);
    assert_eq!(ContrastCurve::new(-26, 0).compute_single(MAX_14BIT), 16382);
}

// ─── high / shadow ───────────────────────────────────────────────────────

#[test]
fn shadow_mode_from_int() {
    assert_eq!(ShadowMode::from_int(0), ShadowMode::Const);
    assert_eq!(ShadowMode::from_int(1), ShadowMode::Linear);
    assert_eq!(ShadowMode::from_int(2), ShadowMode::Zero);
    assert_eq!(ShadowMode::from_int(99), ShadowMode::Const);
}

#[test]
fn highlight_mode_from_int() {
    assert_eq!(HighlightMode::from_int(0), HighlightMode::Const);
    assert_eq!(HighlightMode::from_int(1), HighlightMode::Linear);
    assert_eq!(HighlightMode::from_int(2), HighlightMode::Max);
}

#[test]
fn identity_like_passes_through() {
    let hsc = HighShadowCurve::identity_like(Box::new(IdentityCurve));
    for i in (0..16384u16).step_by(173) {
        assert_eq!(hsc.compute_single(i), i);
    }
    assert_eq!(hsc.compute_single(MAX_14BIT), MAX_14BIT);
}

#[test]
fn high_shadow_zones() {
    let hsc = HighShadowCurve::new(
        1000,
        9000,
        200,
        15000,
        ShadowMode::Linear,
        HighlightMode::Linear,
        Box::new(IdentityCurve),
    );
    // shadow zone: 200 * 500 / 1000
    assert_eq!(hsc.compute_single(500), 100);
    // mid zone: remap (5000 - 1000) * 16383 / 8000 = 8191.5 -> 8192;
    // out = 200 + 8192 * 14800 / 16383 = 7600.45 -> 7600
    assert_eq!(hsc.compute_single(5000), 7600);
    // highlight zone: 15000 + (12000 - 9000) * 1383 / 7384 = 15561.8 -> 15561
    assert_eq!(hsc.compute_single(12000), 15561);
    let zero = HighShadowCurve::new(
        1000,
        9000,
        200,
        15000,
        ShadowMode::Zero,
        HighlightMode::Max,
        Box::new(IdentityCurve),
    );
    assert_eq!(zero.compute_single(10), 0);
    assert_eq!(zero.compute_single(9000), MAX_14BIT);
}

// ─── single point ────────────────────────────────────────────────────────

#[test]
fn single_point_curve_lookup() {
    let mut t = Box::new([0u16; 16384]);
    for i in 0..16384usize {
        t[i] = (16383 - i) as u16;
    }
    let sp = SinglePointCurve::with_lut(t);
    assert_eq!(sp.compute_single(0), 16383);
    assert_eq!(sp.compute_single(40000), 0);
    let mut lut = Box::new([0u16; 16384]);
    sp.build_lut(&mut *lut);
    assert_eq!(lut[100], 16283);
    assert_eq!(SinglePointCurve::default_enabled().compute_single(1234), 1234);
    assert_eq!(SinglePointCurve::disabled().compute_single(40000), 40000);
}

#[test]
fn table_curve_maps_by_its_table_inside_an_aggregate() {
    let mut t = Box::new([0u16; 16384]);
    for i in 0..16384usize {
        t[i] = (16383 - i) as u16;
    }
    let tc = TableCurve::new(t);
    assert_eq!(tc.compute_single(0), 16383);
    assert_eq!(tc.compute_single(100), 16283);
    assert_eq!(tc.compute_single(60000), 0);
    let agg = AggregateCurve::new().add(Box::new(tc), CompositionMode::Sequential);
    assert_eq!(agg.compute_single(1000), 15383);
    let mut lut = Box::new([0u16; 16384]);
    agg.build_lut(&mut lut);
    assert_eq!(lut[16383], 0);
}
