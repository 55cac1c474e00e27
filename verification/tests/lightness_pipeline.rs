use fff_viewer::color::flex::lightness::{lightness_level, lightness_points, LightnessCurve};
use fff_viewer::color::flex::pipeline::Pipeline;

#[test]
fn lightness_y1_formula_matches_docs() {
    let cases = [(0, 2), (20, 52), (50, 127), (100, 252)];
    for (l, expected_y1) in cases {
        let y1 = ((l as i32 * 250 / 100) + 2).clamp(0, 255);
        assert_eq!(y1, expected_y1, "Lightness={}", l);
    }
}

#[test]
fn lightness_level_matches_formula() {
    for (l, expected) in [(0i16, 2u8), (20, 52), (50, 127), (100, 252), (200, 255), (-1, 0), (-100, 0), (1, 4)] {
        assert_eq!(lightness_level(l), expected, "Lightness={}", l);
    }
    assert_eq!(lightness_points(50), vec![(0, 0, 1), (2, 127, 1), (50, 50, 1), (255, 255, 1)]);
}

fn ramp_plus(offset: i32) -> Box<[u16; 16384]> {
    let mut t = Box::new([0u16; 16384]);
    for i in 0..16384usize {
        t[i] = (i as i32 + offset).clamp(0, 16383) as u16;
    }
    t
}

#[test]
fn lightness_gate_and_offset() {
    let off = LightnessCurve::with_table(50, false, ramp_plus(100));
    assert!(!off.should_apply());
    let mut px = [1000u16, 2000, 3000];
    off.apply_rgb_chunk(&mut px);
    assert_eq!(px, [1000, 2000, 3000]);

    let on = LightnessCurve::with_table(50, true, ramp_plus(100));
    assert!(on.should_apply());
    let mut px = [2000u16, 4000, 6000];
    on.apply_rgb_chunk(&mut px);
    assert_eq!(px, [2100, 4100, 6100]);
    let mut top = [16383u16; 3];
    on.apply_rgb_chunk(&mut top);
    assert_eq!(top, [16383; 3]);

    let mut buf = vec![0u16, 0, 0, 100, 100, 100, 9];
    on.apply_14bit_rgb(&mut buf);
    assert_eq!(buf, vec![100, 100, 100, 200, 200, 200, 9]);
}

#[test]
fn pipeline_lookup() {
    let mut r = Box::new([0u16; 16384]);
    let mut g = Box::new([0u16; 16384]);
    let mut b = Box::new([0u16; 16384]);
    for i in 0..16384usize {
        r[i] = (16383 - i) as u16;
        g[i] = i as u16;
        b[i] = 7;
    }
    let p = Pipeline::new([r, g, b]);
    let mut px = vec![0u16, 5, 40000, 16383, 16383, 16383];
    p.apply_14bit_rgb(&mut px);
    assert_eq!(px, vec![16383, 5, 7, 0, 16383, 7]);
    let mut wide = vec![4u16, 65535, 9];
    p.apply_16bit_rgb(&mut wide);
    // red: table[1] = 16382 -> 65528; green: table[16383] = 16383 -> 65532; blue: 7 -> 28
    assert_eq!(wide, vec![65528, 65532, 28]);
}

#[test]
fn lightness_zero_is_identity() {
    let lc = LightnessCurve::new(0, true);
    assert!(!lc.should_apply());
    for i in (0..16384u16).step_by(1024) {
        let got = lc.lut[i as usize];
        let diff = (got as i32 - i as i32).abs();
        assert!(diff <= 2, "Lightness=0, i={} got={}, diff={}", i, got, diff);
    }
}

#[test]
fn lightness_disabled_sliders_gate() {
    let lc = LightnessCurve::new(50, false);
    assert!(!lc.should_apply());
    let mut px = [1000u16, 2000, 3000];
    let before = px;
    lc.apply_rgb_chunk(&mut px);
    assert_eq!(px, before);
}

#[test]
fn lightness_50_lifts_shadows() {
    let lc = LightnessCurve::new(50, true);
    assert!(lc.should_apply());
    let dark_in = 64u16;
    let dark_out = lc.lut[dark_in as usize];
    assert!(dark_out > dark_in + 1000, "Lightness=50 at v={} lift, got {}", dark_in, dark_out);
    let mid_in = 3200u16;
    let mid_out = lc.lut[mid_in as usize];
    assert!(mid_out > mid_in, "mid lift, got {}", mid_out);
    assert!(mid_out < mid_in + 4000, "mid not over-lifted, got {}", mid_out);
    let hi_in = 14000u16;
    let hi_out = lc.lut[hi_in as usize];
    let hi_diff = (hi_out as i32 - hi_in as i32).abs();
    assert!(hi_diff <= 100, "hi identity, got {}", hi_out);
}

#[test]
fn rgb_chunk_apply_preserves_hue() {
    let lc = LightnessCurve::new(50, true);
    let mut px = [2000u16, 4000, 6000];
    lc.apply_rgb_chunk(&mut px);
    let d_rg = px[1] as i32 - px[0] as i32;
    let d_gb = px[2] as i32 - px[1] as i32;
    assert_eq!(d_rg, 2000);
    assert_eq!(d_gb, 2000);
}

#[test]
fn rgb_chunk_clamps_at_max() {
    let lc = LightnessCurve::new(100, true);
    let mut px = [16383u16; 3];
    lc.apply_rgb_chunk(&mut px);
    for &v in &px {
        assert!(v <= 16383);
    }
}
