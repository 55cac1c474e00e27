use fff_viewer::color::processing::{film_curve_extractable, has_heavy_adjustments};
use fff_viewer::flexcolor::ImageCorrection;
use fff_viewer::color::processing::{
    build_curve_lut, identity_lut, invert_lut_256, FILM_CURVE_LUT_B, FILM_CURVE_LUT_G, FILM_CURVE_LUT_R,
};

#[test]
fn film_curve_lut_monotonic() {
    for (name, lut) in [("R", &FILM_CURVE_LUT_R), ("G", &FILM_CURVE_LUT_G), ("B", &FILM_CURVE_LUT_B)] {
        for i in 1..256 {
            assert!(
                lut[i] >= lut[i - 1],
                "{} channel LUT not monotonic at index {}: {} < {}",
                name,
                i,
                lut[i],
                lut[i - 1]
            );
        }
    }
}

#[test]
fn film_curve_lut_no_large_jumps() {
    for (name, lut) in [("R", &FILM_CURVE_LUT_R), ("G", &FILM_CURVE_LUT_G), ("B", &FILM_CURVE_LUT_B)] {
        for i in 1..256 {
            let diff = (lut[i] as i16 - lut[i - 1] as i16).unsigned_abs();
            assert!(
                diff <= 9,
                "{} channel LUT has jump of {} at index {} ({} -> {})",
                name,
                diff,
                i,
                lut[i - 1],
                lut[i]
            );
        }
    }
}

#[test]
fn build_curve_lut_identity() {
    let pts = vec![(0i64, 0i64, 0i64), (255, 255, 0)];
    let lut = build_curve_lut(&pts).unwrap();
    for i in 0..256 {
        assert_eq!(lut[i], i as u8, "identity LUT mismatch at {}", i);
    }
}

#[test]
fn build_curve_lut_invert() {
    let pts = vec![(0i64, 255i64, 0i64), (255, 0, 0)];
    let lut = build_curve_lut(&pts).unwrap();
    assert_eq!(lut[0], 255);
    assert_eq!(lut[255], 0);
    assert!((lut[128] as i16 - 127).abs() <= 1, "invert midpoint {} != ~127", lut[128]);
}

#[test]
fn build_curve_lut_single_point_identity() {
    let pts = vec![(128i64, 128i64, 0i64)];
    let lut = build_curve_lut(&pts).unwrap();
    for i in 0..256 {
        assert_eq!(lut[i], i as u8, "single-point LUT should be identity at {}", i);
    }
}

// ─── further cases ───────────────────────────────────────────────────────

#[test]
fn build_curve_lut_duplicates_and_order() {
    // Unsorted input, a repeated level (first one wins), clamped ends.
    let pts = vec![(200i64, 300i64, 0i64), (50, -20, 0), (200, 0, 0)];
    let lut = build_curve_lut(&pts).unwrap();
    assert_eq!(lut[0], 0);
    assert_eq!(lut[50], 0);
    assert_eq!(lut[200], 255);
    assert_eq!(lut[255], 255);
    // (125 - 50) * 320 / 150 - 20 = 140
    assert_eq!(lut[125], 140);
}

#[test]
fn build_curve_lut_three_levels_not_built() {
    let pts = vec![(0i64, 0i64, 0i64), (128, 200, 0), (255, 255, 0)];
    assert!(build_curve_lut(&pts).is_none());
    assert!(build_curve_lut(&[]).is_some());
}

#[test]
fn build_curve_lut_extreme_values() {
    let pts = vec![(i64::MIN, i64::MIN, 0i64), (i64::MAX, i64::MAX, 0)];
    let lut = build_curve_lut(&pts).unwrap();
    // The line through the extremes is y = x + small offset: every entry
    // is within a byte of its index.
    for i in 0..256 {
        assert!((lut[i] as i32 - i as i32).abs() <= 1);
    }
}

#[test]
fn identity_and_inverse_tables() {
    let id = identity_lut();
    for i in 0..256 {
        assert_eq!(id[i], i as u8);
    }
    let inv = invert_lut_256(&id);
    assert_eq!(inv, id);
    let mut steps = [0u8; 256];
    for i in 0..256 {
        steps[i] = ((i / 2) * 2) as u8;
    }
    let inv = invert_lut_256(&steps);
    assert_eq!(inv[4], 4);
    assert_eq!(inv[5], 4);
    assert_eq!(inv[255], 254);
}

#[test]
fn film_curve_extraction_skips_heavy_adjustments() {
    let mut c = ImageCorrection::default();
    c.film_type = 1;
    assert!(!has_heavy_adjustments(&c));
    assert!(film_curve_extractable(10, 20, 10, 20, &c));
    assert!(!film_curve_extractable(10, 20, 10, 21, &c));
    c.film_type = 0;
    assert!(!film_curve_extractable(10, 20, 10, 20, &c));
    c.film_type = 2;
    // Contrast counts only with the sliders applied.
    c.contrast = -3;
    assert!(!has_heavy_adjustments(&c));
    c.apply_sliders = true;
    assert!(has_heavy_adjustments(&c));
    assert!(!film_curve_extractable(10, 20, 10, 20, &c));
    c.contrast = 0;
    // A colour matrix counts when applied, 36 entries long and not all zero.
    c.apply_cc = true;
    c.color_corr = vec![0; 36];
    assert!(!has_heavy_adjustments(&c));
    c.color_corr[35] = 1;
    assert!(has_heavy_adjustments(&c));
    c.color_corr = vec![1; 35];
    assert!(!has_heavy_adjustments(&c));
    // Gradations count when applied, seven or more, and not all identity.
    c.apply_curves = true;
    c.gradations = vec![vec![(0, 0, 0), (255, 255, 0)]; 7];
    assert!(!has_heavy_adjustments(&c));
    c.gradations[6] = vec![(0, 0, 0), (128, 100, 0), (255, 255, 0)];
    assert!(has_heavy_adjustments(&c));
    c.gradations.truncate(6);
    assert!(!has_heavy_adjustments(&c));
    // Dot colours count from 14 entries on.
    c.dot_color = vec![0; 14];
    c.dot_color[7] = 255;
    assert!(!has_heavy_adjustments(&c));
    c.dot_color[0] = 3;
    assert!(has_heavy_adjustments(&c));
    c.dot_color.truncate(13);
    assert!(!has_heavy_adjustments(&c));
}
