use fff_viewer::sidecar::{SidecarAdjustOverrides, SidecarConfig, SidecarRegion};

fn modified_overrides() -> SidecarAdjustOverrides {
    let mut a = SidecarAdjustOverrides::none();
    a.contrast = Some("30".to_string());
    a.saturation = Some("10".to_string());
    a.exposure = Some("0.5".to_string());
    a
}

fn number(t: &Option<String>) -> Option<f32> {
    t.as_ref().map(|s| s.parse::<f32>().unwrap())
}

#[test]
fn roundtrip_preserves_overrides() {
    let mut config = SidecarConfig::empty();
    config.adjust = modified_overrides();
    config.preset_name = Some("Test".to_string());
    let xml = config.to_xml();
    assert!(SidecarConfig::curves_readable(&xml));
    let parsed = SidecarConfig::parse_xml(&xml).expect("valid XML");
    assert_eq!(parsed.preset_name, Some("Test".to_string()));
    assert_eq!(number(&parsed.adjust.contrast), Some(30.0));
    assert_eq!(number(&parsed.adjust.saturation), Some(10.0));
    assert!(parsed.adjust.brightness.is_none());
}

#[test]
fn empty_sidecar_has_no_adjust_section() {
    let config = SidecarConfig::empty();
    let xml = config.to_xml();
    assert!(!xml.contains("<adjust>"), "an empty config writes no adjust section");
}

#[test]
fn curve_points_roundtrip() {
    let mut curves: Vec<Vec<(i64, i64, i64)>> = vec![vec![(0, 0, 0), (255, 255, 0)]; 7];
    curves[0] = vec![(0, 0, 0), (64, 32, 0), (192, 224, 0), (255, 255, 0)];
    let mut config = SidecarConfig::empty();
    config.curve_points_override = Some(curves.clone());
    let xml = config.to_xml();
    assert!(SidecarConfig::curves_readable(&xml));
    let parsed = SidecarConfig::parse_xml(&xml).expect("valid XML");
    assert_eq!(parsed.curve_points_override, Some(curves));
}

#[test]
fn sidecar_empty_exact_text() {
    let xml = SidecarConfig::empty().to_xml();
    let expected = "<?xml version=\"1.0\" encoding=\"UTF-8\"?>\n<fff_viewer>\n  <color>\n    <use_embedded_correction>false</use_embedded_correction>\n    <use_embedded_icc>false</use_embedded_icc>\n    <target_color_space>ProPhotoRGB</target_color_space>\n  </color>\n  <split>\n    <format>Free</format>\n    <portrait>false</portrait>\n    <naming_pattern>{name}_{n}</naming_pattern>\n  </split>\n</fff_viewer>\n";
    assert_eq!(xml, expected);
}

#[test]
fn sidecar_writes_fields_in_order() {
    let mut config = SidecarConfig::empty();
    config.embedded_correction_index = Some(2);
    config.input_profile_name = Some("A<B".to_string());
    let mut a = SidecarAdjustOverrides::none();
    a.film_type = Some(-3);
    a.apply_levels = Some(true);
    a.levels_black = Some(vec!["1".to_string(), "2".to_string(), "3".to_string(), "4".to_string()]);
    a.usm_col_factor = Some(vec![1, -2, 3]);
    config.adjust = a;
    config.split_regions.push(SidecarRegion {
        cx: "0.500000".to_string(),
        cy: "0.250000".to_string(),
        w: "0.100000".to_string(),
        h: "0.200000".to_string(),
        angle: "0.000000".to_string(),
    });
    let xml = config.to_xml();
    assert!(xml.contains("    <embedded_correction_index>2</embedded_correction_index>\n    <input_profile>A&lt;B</input_profile>\n"));
    assert!(xml.contains("  <adjust>\n    <adj_film_type>-3</adj_film_type>\n    <adj_apply_levels>true</adj_apply_levels>\n    <adj_levels_black>1,2,3,4</adj_levels_black>\n    <adj_usm_col_factor>1,-2,3</adj_usm_col_factor>\n  </adjust>\n"));
    assert!(xml.contains("    <regions>\n      <region cx=\"0.500000\" cy=\"0.250000\" w=\"0.100000\" h=\"0.200000\" angle=\"0.000000\"/>\n    </regions>\n"));
    let parsed = SidecarConfig::parse_xml(&xml).unwrap();
    assert_eq!(parsed.embedded_correction_index, Some(2));
    assert_eq!(parsed.input_profile_name, Some("A<B".to_string()));
    assert_eq!(parsed.adjust.film_type, Some(-3));
    assert_eq!(parsed.adjust.apply_levels, Some(true));
    assert_eq!(parsed.adjust.levels_black, Some(vec!["1".to_string(), "2".to_string(), "3".to_string(), "4".to_string()]));
    assert_eq!(parsed.adjust.usm_col_factor, Some(vec![1, -2, 3]));
    assert_eq!(parsed.split_regions.len(), 1);
    assert_eq!(parsed.split_regions[0].cx, "0.500000");
    assert_eq!(parsed.split_regions[0].angle, "0.000000");
    assert!(parsed.curve_points_override.is_none());
}

#[test]
fn sidecar_missing_root_is_none() {
    assert!(SidecarConfig::parse_xml("<color></color>").is_none());
}

#[test]
fn sidecar_single_level_value_repeats() {
    let xml = "<fff_viewer><adj_levels_gamma> 1.5 </adj_levels_gamma><adj_levels_white>1,2</adj_levels_white></fff_viewer>";
    let parsed = SidecarConfig::parse_xml(xml).unwrap();
    assert_eq!(parsed.adjust.levels_gamma, Some(vec!["1.5".to_string(); 4]));
    assert!(parsed.adjust.levels_white.is_none());
}

#[test]
fn sidecar_bad_values_are_skipped() {
    let xml = "<fff_viewer><adj_film_type>x</adj_film_type><adj_contrast>abc</adj_contrast><adj_apply_usm>yes</adj_apply_usm><adj_color_corr>1,2</adj_color_corr><embedded_correction_index>-1</embedded_correction_index></fff_viewer>";
    let parsed = SidecarConfig::parse_xml(xml).unwrap();
    assert!(parsed.adjust.film_type.is_none());
    assert!(parsed.adjust.contrast.is_none());
    assert_eq!(parsed.adjust.apply_usm, Some(false));
    assert!(parsed.adjust.color_corr.is_none());
    assert!(parsed.embedded_correction_index.is_none());
    assert_eq!(parsed.target_color_space, "ProPhotoRGB");
    assert_eq!(parsed.split_format, "Free");
}

#[test]
fn sidecar_region_without_angle_defaults_to_zero() {
    let xml = "<fff_viewer><region cx=\"1\" cy=\"2\" w=\"3\" h=\"4\"/><region cx=\"a\" cy=\"2\" w=\"3\" h=\"4\"/></fff_viewer>";
    let parsed = SidecarConfig::parse_xml(xml).unwrap();
    assert_eq!(parsed.split_regions.len(), 1);
    assert_eq!(parsed.split_regions[0].angle.parse::<f32>().unwrap(), 0.0);
    assert_eq!(parsed.split_regions[0].h, "4");
}

#[test]
fn sidecar_curve_element_rules() {
    let xml = "<fff_viewer><curve_points><curve ch=\"2\">1,2,3;bad;4,5,6</curve><curve ch=\"9\">7,7,7</curve></curve_points></fff_viewer>";
    assert!(SidecarConfig::curves_readable(xml));
    let parsed = SidecarConfig::parse_xml(xml).unwrap();
    let cs = parsed.curve_points_override.unwrap();
    assert_eq!(cs.len(), 7);
    assert_eq!(cs[2], vec![(1, 2, 3), (4, 5, 6)]);
    assert_eq!(cs[0], vec![(0, 0, 0), (255, 255, 0)]);
}

#[test]
fn sidecar_unreadable_curve_element_is_detected() {
    let xml = "<fff_viewer><curve_points><curve ch=\"1\"</curve></curve_points></fff_viewer>";
    assert!(!SidecarConfig::curves_readable(xml));
}

#[test]
fn sidecar_any_set_follows_fields() {
    let mut a = SidecarAdjustOverrides::none();
    assert!(!a.any_set());
    a.remove_cast_shadow = Some(false);
    assert!(a.any_set());
}

#[test]
fn non_finite_exposure_is_dropped_on_load() {
    let xml = "<fff_viewer><adjust><adj_exposure>inf</adj_exposure><adj_contrast>30</adj_contrast></adjust></fff_viewer>";
    let c = SidecarConfig::parse_xml(xml).unwrap();
    assert!(c.adjust.exposure.is_none());
    assert_eq!(c.adjust.contrast.as_deref(), Some("30"));
    assert_eq!(c.adjust.contrast.as_ref().unwrap().parse::<f32>().unwrap(), 30.0);
    assert_eq!(c.target_color_space, "ProPhotoRGB");
    for t in ["-Infinity", "NaN", "+inf", "INF"] {
        let xml = format!("<fff_viewer><adjust><adj_exposure>{}</adj_exposure></adjust></fff_viewer>", t);
        assert!(SidecarConfig::parse_xml(&xml).unwrap().adjust.exposure.is_none(), "{}", t);
    }
    let xml = "<fff_viewer><adjust><adj_exposure>-1.5</adj_exposure></adjust></fff_viewer>";
    assert_eq!(SidecarConfig::parse_xml(xml).unwrap().adjust.exposure.as_deref(), Some("-1.5"));
}

#[test]
fn adjust_section_only_when_something_is_set() {
    let mut config = SidecarConfig::empty();
    config.preset_name = Some("<adjust>".to_string());
    config.split_format = "adjust".to_string();
    config.split_regions = vec![SidecarRegion {
        cx: "0.5".to_string(),
        cy: "0.5".to_string(),
        w: "1".to_string(),
        h: "1".to_string(),
        angle: "0".to_string(),
    }];
    assert!(!config.to_xml().contains("<adjust>"));
    config.curve_points_override = Some(vec![vec![(0, 0, 1)]; 7]);
    assert!(config.to_xml().contains("<adjust>"));
    config.curve_points_override = None;
    config.adjust.contrast = Some("5".to_string());
    assert!(config.to_xml().contains("<adjust>"));
}
