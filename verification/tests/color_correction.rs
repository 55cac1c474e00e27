use fff_viewer::color::flex::color_correction::{ColorCorrParams, ColorCorrection};
use fff_viewer::color::flex::curves::MAX_14BIT;

fn zero_params() -> ColorCorrParams {
    ColorCorrParams {
        matrix: [[0; 6]; 6],
        saturation: 0,
        apply_cc: true,
    }
}

#[test]
fn identity_fast_path_when_all_zero() {
    let p = zero_params();
    assert!(!p.is_customized());
    assert!(!p.should_apply());
}

#[test]
fn non_zero_sat_triggers_customized() {
    let mut p = zero_params();
    p.saturation = 10;
    assert!(p.is_customized());
}

#[test]
fn all_negsat_not_customized() {
    let mut p = zero_params();
    p.saturation = 10;
    for row in &mut p.matrix {
        for cell in row {
            *cell = -10;
        }
    }
    assert!(!p.is_customized());
}

#[test]
fn apply_cc_gate() {
    let mut p = zero_params();
    p.saturation = 10;
    p.matrix[0][0] = 100;
    p.apply_cc = false;
    assert!(!p.should_apply());
}

#[test]
fn saturation_only_does_not_trigger_mvp() {
    let mut p = zero_params();
    p.saturation = 20;
    assert!(!p.should_apply());
}

#[test]
fn matrix_nonzero_does_not_trigger_mvp() {
    let mut p = zero_params();
    p.matrix[2][3] = 50;
    assert!(!p.should_apply());
}

#[test]
fn disabled_cc_is_passthrough() {
    let cc = ColorCorrection::disabled();
    let mut px = [1000u16, 2000, 3000];
    let before = px;
    cc.apply_rgb_chunk(&mut px);
    assert_eq!(px, before);
}

#[test]
fn zero_matrix_produces_no_change() {
    let cc = ColorCorrection::compile(&zero_params());
    assert!(!cc.enabled);
    let mut px = [1000u16, 2000, 3000];
    let before = px;
    cc.apply_rgb_chunk(&mut px);
    assert_eq!(px, before);
}

#[test]
fn gray_pixel_no_chroma_terms() {
    let mut p = zero_params();
    p.saturation = 50;
    for row in &mut p.matrix {
        for cell in row {
            *cell = 1000;
        }
    }
    let cc = ColorCorrection::compile(&p);
    assert!(!cc.enabled);

    let mut px = [5000u16, 5000, 5000];
    cc.apply_rgb_chunk(&mut px);
    assert_eq!(px, [5000, 5000, 5000]);
}

#[test]
fn from_image_correction_fields() {
    let color_corr: Vec<i64> = (0..36).map(|i| i as i64).collect();
    let params = ColorCorrParams::from_image_correction(&color_corr, 10, true);
    assert_eq!(params.matrix[0][0], 0);
    assert_eq!(params.matrix[5][5], 35);
    assert_eq!(params.saturation, 10);
    assert!(params.apply_cc);
}

#[test]
fn clamps_output_to_14bit() {
    let mut p = zero_params();
    p.saturation = 1;
    for row in &mut p.matrix {
        for cell in row {
            *cell = 10000;
        }
    }
    let cc = ColorCorrection::compile(&p);
    let mut px = [MAX_14BIT, 0, 0];
    cc.apply_rgb_chunk(&mut px);
    for &v in &px {
        assert!(v <= MAX_14BIT);
    }
}

// ─── further cases ───────────────────────────────────────────────────────

#[test]
fn compile_sums_columns_and_saturation() {
    let mut p = zero_params();
    p.saturation = 7;
    p.matrix[1][1] = 10;
    p.matrix[1][2] = 20;
    p.matrix[1][3] = 30;
    p.matrix[4][3] = 5;
    p.matrix[0][0] = 99;
    let cc = ColorCorrection::compile(&p);
    for out in 0..3 {
        assert_eq!(cc.m3x6[out][1], 67);
        assert_eq!(cc.m3x6[out][4], 5);
        assert_eq!(cc.m3x6[out][0], 0);
        assert_eq!(cc.m3x6[out][2], 7);
        assert_eq!(cc.m3x6[out][5], 0);
    }
}

#[test]
fn compile_clamps_to_i16() {
    let mut p = zero_params();
    p.matrix[0][1] = 30000;
    p.matrix[0][2] = 30000;
    p.matrix[5][1] = -30000;
    p.matrix[5][2] = -30000;
    let cc = ColorCorrection::compile(&p);
    assert_eq!(cc.m3x6[0][0], i16::MAX);
    assert_eq!(cc.m3x6[2][5], i16::MIN);
}

#[test]
fn enabled_correction_subtracts_rounded_delta() {
    // Pure red excess 1000: channel loses round(m * 1000 / 100).
    let mut m3x6 = [[0i16; 6]; 3];
    m3x6[0][5] = 3; // red loses round(3000 / 100) = 30
    m3x6[1][5] = -5; // green gains 50
    m3x6[2][5] = 1; // blue loses 10, clamped at 0
    let cc = ColorCorrection { m3x6, enabled: true };
    let mut px = [3000u16, 2000, 5];
    cc.apply_rgb_chunk(&mut px);
    assert_eq!(px, [2970, 2050, 0]);
}

#[test]
fn enabled_correction_rounds_half_away_from_zero() {
    let mut m3x6 = [[0i16; 6]; 3];
    m3x6[0][5] = 1; // red excess 150 -> delta round(1.5) = 2
    m3x6[1][5] = -1; // delta round(-1.5) = -2
    let cc = ColorCorrection { m3x6, enabled: true };
    let mut px = [1150u16, 1000, 1000];
    cc.apply_rgb_chunk(&mut px);
    assert_eq!(px, [1148, 1002, 1000]);
}

#[test]
fn whole_buffer_leaves_trailing_samples() {
    let mut m3x6 = [[0i16; 6]; 3];
    m3x6[0][5] = 100;
    let cc = ColorCorrection { m3x6, enabled: true };
    let mut px = vec![2000u16, 1000, 1000, 500, 500, 500, 7];
    cc.apply_14bit_rgb(&mut px);
    assert_eq!(px, vec![1000, 1000, 1000, 500, 500, 500, 7]);
}

#[test]
fn from_image_correction_short_and_clamped() {
    let params = ColorCorrParams::from_image_correction(&[1, -70000, 70000], -40000, false);
    assert_eq!(params.matrix[0][0], 1);
    assert_eq!(params.matrix[0][1], i16::MIN);
    assert_eq!(params.matrix[0][2], i16::MAX);
    assert_eq!(params.matrix[3][3], 0);
    assert_eq!(params.saturation, i16::MIN);
    assert!(!params.apply_cc);
}
