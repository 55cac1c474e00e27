use fff_viewer::flexcolor::{parse_settings_xml, DateTime, EditHistory, ImageCorrection};
use fff_viewer::flexcolor::plist::{find_element, parse_plist_nodes, XmlNode};

const HISTORY: &str = r#"<?xml version="1.0" encoding="UTF-8"?>
<!DOCTYPE plist PUBLIC "-//Apple//DTD PLIST 1.0//EN" "http://www.apple.com/DTDs/PropertyList-1.0.dtd">
<plist version="1.0">
<dict>
  <key>CurrentIx</key>
  <integer>1</integer>
  <key>ImageSettings</key>
  <array>
    <dict>
      <key>Name</key><string>Default</string>
      <key>Flags</key><integer>3</integer>
    </dict>
    <dict>
      <key>Name</key><string>Warm &amp;lt;1&gt;</string>
      <key>Info</key><string>scan</string>
      <key>Created</key>
      <dict>
        <key>Year</key><integer>2024</integer>
        <key>Month</key><integer>5</integer>
        <key>Day</key><integer>7</integer>
        <key>Hour</key><integer>9</integer>
        <key>Minute</key><integer>3</integer>
        <key>Second</key><integer>1</integer>
      </dict>
      <key>ImageCorrection</key>
      <dict>
        <key>streamableVersion</key><integer>2</integer>
        <key>Contrast</key><integer>-12</integer>
        <key>Gamma</key><real>2.2</real>
        <key>ApplySliders</key><true/>
        <key>ApplyCurves</key><false/>
        <key>ApplyCC</key><string>true</string>
        <key>Shadow</key><array><integer>1</integer><integer>2</integer></array>
        <key>GradationSliders</key><array><integer>4</integer><integer>5</integer><integer>6</integer></array>
        <key>USMColFactor</key><array><integer>7</integer><integer>8</integer><integer>9</integer></array>
        <key>InputProfile</key><dict><key>Name</key><string>Flextight Input</string></dict>
        <key>Gradations</key>
        <array>
          <dict>
            <key>Points</key>
            <array>
              <dict><key>X</key><integer>0</integer><key>Y</key><integer>10</integer></dict>
              <dict><key>X</key><integer>255</integer><key>Y</key><integer>250</integer><key>DY</key><integer>0</integer></dict>
            </array>
          </dict>
        </array>
      </dict>
    </dict>
  </array>
</dict>
</plist>"#;

#[test]
fn edit_history_reads_settings() {
    let h = EditHistory::parse_xml(HISTORY).unwrap();
    assert_eq!(h.current_index, 1);
    assert_eq!(h.settings.len(), 2);
    assert_eq!(h.settings[0].name, "Default");
    assert_eq!(h.settings[0].flags, 3);
    assert_eq!(h.settings[0].correction.gamma, "");
    let s = &h.settings[1];
    assert_eq!(s.name, "Warm <1>");
    assert_eq!(s.info, "scan");
    assert_eq!(s.created.to_string(), "2024-05-07 09:03:01");
    assert!(!s.modified.is_valid());
    let c = &s.correction;
    assert_eq!(c.contrast, -12);
    assert_eq!(c.gamma, "2.2");
    assert!(c.apply_sliders);
    assert!(!c.apply_curves);
    assert!(c.apply_cc);
    assert_eq!(c.shadow, [1, 2, 0, 0]);
    assert_eq!(c.gradation_sliders, [4, 5, 6]);
    assert_eq!(c.usm_col_factor, vec![7, 8, 9]);
    assert_eq!(c.input_profile_name.as_deref(), Some("Flextight Input"));
    assert_eq!(c.rgb_profile_name, None);
    assert_eq!(c.gradations, vec![vec![(0, 10, 1), (255, 250, 0)]]);
}

#[test]
fn raw_parameters_in_order() {
    let h = EditHistory::parse_xml(HISTORY).unwrap();
    let raw = &h.settings[1].correction.raw_params;
    let keys: Vec<&str> = raw.iter().map(|(k, _)| k.as_str()).collect();
    assert_eq!(
        keys,
        vec![
            "Contrast", "Gamma", "ApplySliders", "ApplyCurves", "ApplyCC", "Shadow", "GradationSliders",
            "USMColFactor", "InputProfile"
        ]
    );
    assert_eq!(raw[0].1, "-12");
    assert_eq!(raw[2].1, "true");
    assert_eq!(raw[3].1, "false");
    assert_eq!(raw[5].1, "[complex]");
    assert_eq!(raw[8].1, "[complex]");
}

#[test]
fn edit_history_from_bytes_with_surroundings() {
    let mut data = b"\x00\x01junk".to_vec();
    data.extend_from_slice(HISTORY.as_bytes());
    data.extend_from_slice(b"trailing</plist>");
    let h = EditHistory::parse(&data).unwrap();
    assert_eq!(h.settings.len(), 2);
    assert_eq!(EditHistory::parse_from_file(&data).unwrap().current_index, 1);
    assert!(EditHistory::parse(b"no plist here").is_none());
    let mut bad = b"<?xml \xff".to_vec();
    bad.extend_from_slice(b"</plist>");
    assert!(EditHistory::parse(&bad).is_none());
}

#[test]
fn edit_history_needs_settings() {
    assert!(EditHistory::parse_xml("<plist><array/></plist>").is_none());
    assert!(EditHistory::parse_xml("<plist><dict><key>CurrentIx</key><integer>2</integer></dict></plist>").is_none());
}

#[test]
fn current_index_ignores_bad_numbers() {
    let xml = "<plist><dict><key>ImageSettings</key><array><dict/></array>\
               <key>CurrentIx</key><integer>-1</integer></dict></plist>";
    let h = EditHistory::parse_xml(xml).unwrap();
    assert_eq!(h.current_index, 0);
    assert_eq!(h.settings.len(), 1);
}

#[test]
fn settings_preset_correction() {
    let xml = "<?xml version=\"1.0\"?><plist><dict>\
               <key>Other</key><string>x</string>\
               <key>ImageSetting</key><dict><key>ImageCorrection</key>\
               <dict><key>Brightness</key><integer>15</integer><key>EV</key><real>-0.5</real></dict>\
               </dict></dict></plist>";
    let c = parse_settings_xml(xml).unwrap();
    assert_eq!(c.brightness, 15);
    assert_eq!(c.ev, "-0.5");
    assert_eq!(c.gamma, "2");
    assert!(parse_settings_xml("<plist><dict><key>ImageSetting</key><dict/></dict></plist>").is_none());
    assert!(parse_settings_xml("<plist></plist>").is_none());
}

#[test]
fn default_correction_is_empty() {
    let c = ImageCorrection::default();
    assert_eq!(c.contrast, 0);
    assert_eq!(c.gamma, "");
    assert!(c.raw_params.is_empty());
    assert_eq!(c.shadow, [0; 4]);
}

#[test]
fn plist_reader_structure() {
    let nodes = parse_plist_nodes("<?xml?><plist><dict><key> a </key><true/></dict></plist>");
    let d = find_element(&nodes, "dict").unwrap();
    match d {
        XmlNode::Element { name, children } => {
            assert_eq!(name, "dict");
            assert_eq!(children.len(), 2);
            match &children[0] {
                XmlNode::Element { children: k, .. } => match &k[0] {
                    XmlNode::Text(t) => assert_eq!(t, "a"),
                    _ => panic!("text"),
                },
                _ => panic!("key"),
            }
        },
        _ => panic!("element"),
    }
    assert!(find_element(&nodes, "array").is_none());
}

#[test]
fn date_time_text() {
    let d = DateTime { year: 7, month: 1, day: 2, hour: 3, minute: 4, second: 5 };
    assert_eq!(d.to_string(), "0007-01-02 03:04:05");
    assert_eq!(DateTime::default().to_string(), "\u{2014}");
}

#[test]
fn preset_without_ev_reads_unity_ev() {
    let xml = "<plist><dict><key>ImageSetting</key><dict><key>ImageCorrection</key><dict><key>Contrast</key><integer>5</integer></dict></dict></dict></plist>";
    let c = parse_settings_xml(xml).unwrap();
    assert_eq!(c.contrast, 5);
    assert_eq!(c.gamma, "2");
    assert_eq!(c.ev, "1");
    assert_eq!(c.ev.parse::<f64>().unwrap(), 1.0);
}
