use fff_viewer::color::flex::curves::point::{CurvePoint, PointCurve};
use fff_viewer::color::flex::curves::Curve;

#[test]
fn identity_curve_lut_is_linear() {
    let pc = PointCurve::identity();
    assert!(pc.is_identity());
    assert_eq!(pc.compute_single(0), 0);
    let at_end = pc.compute_single(16320);
    assert!((at_end as i32 - 16320).abs() <= 1, "at 16320 got {}", at_end);
    assert_eq!(pc.compute_single(16383), 16320);
}

#[test]
fn identity_curve_monotonic() {
    let pc = PointCurve::identity();
    let mut prev = 0i32;
    for i in (0..16384u16).step_by(97) {
        let v = pc.compute_single(i) as i32;
        assert!(v >= prev, "non-monotonic at {}", i);
        prev = v;
    }
}

#[test]
fn point_disabled_is_passthrough() {
    let pc = PointCurve::disabled();
    for i in (0..16384u16).step_by(173) {
        assert_eq!(pc.compute_single(i), i);
    }
}

#[test]
fn single_point_curve_is_constant() {
    let pc = PointCurve::from_points(vec![CurvePoint::new(100, 150, 1)]).unwrap();
    let expected = 150 * 64;
    for i in (0..16384u16).step_by(173) {
        assert_eq!(pc.compute_single(i), expected);
    }
}

#[test]
fn two_point_non_identity() {
    let pc = PointCurve::from_points(vec![CurvePoint::new(0, 0, 1), CurvePoint::new(128, 200, 1)])
        .unwrap();
    assert_eq!(pc.compute_single(0), 0);
    assert_eq!(pc.compute_single(8192), 12800);
    let mid = pc.compute_single(4096);
    assert!((mid as i32 - 6400).abs() <= 1);
    assert_eq!(pc.compute_single(10000), 12800);
}

#[test]
fn from_xml_points_identity() {
    let pc = PointCurve::from_xml_points(&[(0, 0, 1), (255, 255, 1)]).unwrap();
    assert!(pc.is_identity());
}

#[test]
fn build_lut_returns_same_data() {
    let pc = PointCurve::identity();
    let mut lut = Box::new([0u16; 16384]);
    pc.build_lut(&mut *lut);
    for i in (0..16384usize).step_by(97) {
        assert_eq!(lut[i], pc.compute_single(i as u16));
    }
}

#[test]
fn curve_point_14bit_conversion() {
    let p = CurvePoint::new(100, 200, 1);
    assert_eq!(p.x_14bit(), 6400);
    assert_eq!(p.y_14bit(), 12800);
}

// ─── further cases ───────────────────────────────────────────────────────

#[test]
fn identity_table_exact() {
    let pc = PointCurve::identity();
    for i in 0..=16320u16 {
        assert_eq!(pc.compute_single(i), i);
    }
    for i in 16321..=16383u16 {
        assert_eq!(pc.compute_single(i), 16320);
    }
}

#[test]
fn two_point_interpolation_rounds_half_up() {
    // (0,0) -> (128,200): entry i is i * 12800 / 8192 = 1.5625 i
    let pc = PointCurve::from_points(vec![CurvePoint::new(0, 0, 1), CurvePoint::new(128, 200, 1)])
        .unwrap();
    assert_eq!(pc.compute_single(8), 13); // 12.5 -> 13
    assert_eq!(pc.compute_single(3), 5); // 4.6875 -> 5
}

#[test]
fn flat_before_first_and_after_second_point() {
    let pc = PointCurve::from_points(vec![CurvePoint::new(64, 10, 1), CurvePoint::new(192, 250, 1)])
        .unwrap();
    assert_eq!(pc.compute_single(0), 640);
    assert_eq!(pc.compute_single(4095), 640);
    assert_eq!(pc.compute_single(12289), 16000);
    assert_eq!(pc.compute_single(16383), 16000);
}

#[test]
fn degenerate_two_points() {
    let pc = PointCurve::from_points(vec![CurvePoint::new(100, 10, 1), CurvePoint::new(50, 200, 1)])
        .unwrap();
    assert_eq!(pc.compute_single(0), 640);
    assert_eq!(pc.compute_single(3200), 640);
    assert_eq!(pc.compute_single(3201), 12800);
}

#[test]
fn empty_points_identity_and_three_point_spline() {
    let pc = PointCurve::from_points(vec![]).unwrap();
    assert_eq!(pc.compute_single(12345), 12345);
    // Three points: a quadratic clamped spline, i.e. the Bezier curve through
    // (0, 0), (4096, 5120), (16320, 16320). At s = 512 it stands at
    // x = 6128, y = 6640 exactly, so table entry 6128 is 6640.
    let three = PointCurve::from_points(vec![
        CurvePoint::new(0, 0, 1),
        CurvePoint::new(64, 80, 1),
        CurvePoint::new(255, 255, 1),
    ])
    .unwrap();
    assert_eq!(three.compute_single(0), 0);
    assert_eq!(three.compute_single(6128), 6640);
    assert_eq!(three.compute_single(16320), 16320);
    assert_eq!(three.compute_single(16383), 16320);
    let xml = PointCurve::from_xml_points(&[(-5, 300, 1)]).unwrap();
    assert_eq!(xml.points[0], CurvePoint::new(0, 255, 1));
    assert_eq!(xml.compute_single(77), 16320);
}

#[test]
fn multipoint_curve_passes_through_endpoints() {
    let pc = PointCurve::from_points(vec![
        CurvePoint::new(0, 0, 1),
        CurvePoint::new(64, 80, 1),
        CurvePoint::new(192, 200, 1),
        CurvePoint::new(255, 255, 1),
    ])
    .unwrap();
    assert_eq!(pc.compute_single(0), 0);
    let at_end = pc.compute_single(16320);
    assert!((at_end as i32 - 16320).abs() <= 5, "multipoint end at 16320 got {}", at_end);
}

#[test]
fn multipoint_curve_is_monotone_and_in_range() {
    let pc = PointCurve::from_xml_points(&[(0, 0, 1), (32, 20, 1), (100, 140, 1), (180, 200, 1), (255, 255, 1)]).unwrap();
    let mut lut = Box::new([0u16; 16384]);
    pc.build_lut(&mut lut);
    for i in 1..16384usize {
        assert!(lut[i] >= lut[i - 1], "not monotone at {}", i);
        assert!(lut[i] <= 16383);
    }
    assert_eq!(lut[0], 0);
    assert_eq!(lut[16383], 16320);
}
