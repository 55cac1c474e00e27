use fff_viewer::config::{default_thread_count_for, AppConfig};

#[test]
fn roundtrip() {
    let config = AppConfig {
        gpu_enabled: false,
        gpu_device: "AMD Radeon Pro 5500M".to_string(),
        render_threads: 4,
        language: "zh".to_string(),
        favorites: vec!["/Users/test/Photos".to_string(), "/Volumes/SD".to_string()],
        dir_scan_modes: vec![("/Users/test/Photos".to_string(), 2u8)],
    };
    let xml = config.to_xml();
    let parsed = AppConfig::parse_xml(&xml, 8, "en".to_string()).unwrap();
    assert_eq!(parsed.gpu_enabled, false);
    assert_eq!(parsed.gpu_device, "AMD Radeon Pro 5500M");
    assert_eq!(parsed.render_threads, 4);
    assert_eq!(parsed.language, "zh");
    assert_eq!(parsed.favorites, vec!["/Users/test/Photos", "/Volumes/SD"]);
    let depth = parsed.dir_scan_modes.iter().find(|(p, _)| p == "/Users/test/Photos").map(|(_, d)| *d);
    assert_eq!(depth, Some(2u8));
}

#[test]
fn config_to_xml_exact_text() {
    let config = AppConfig {
        gpu_enabled: true,
        gpu_device: "A&B".to_string(),
        render_threads: 2,
        language: "en".to_string(),
        favorites: vec!["/a".to_string()],
        dir_scan_modes: vec![("/a".to_string(), 1u8)],
    };
    let expected = "<?xml version=\"1.0\" encoding=\"UTF-8\"?>\n<fff_viewer_config>\n  <gpu_enabled>true</gpu_enabled>\n  <gpu_device>A&amp;B</gpu_device>\n  <render_threads>2</render_threads>\n  <language>en</language>\n  <favorites>/a</favorites>\n  <dir_scan_modes>/a:1</dir_scan_modes>\n</fff_viewer_config>\n";
    assert_eq!(config.to_xml(), expected);
}

#[test]
fn config_missing_root_is_none() {
    assert!(AppConfig::parse_xml("<other></other>", 4, "en".to_string()).is_none());
}

#[test]
fn config_absent_fields_take_defaults() {
    let parsed = AppConfig::parse_xml("<fff_viewer_config>\n</fff_viewer_config>", 6, "zh".to_string()).unwrap();
    assert!(parsed.gpu_enabled);
    assert_eq!(parsed.gpu_device, "");
    assert_eq!(parsed.render_threads, 6);
    assert_eq!(parsed.language, "zh");
    assert!(parsed.favorites.is_empty());
    assert!(parsed.dir_scan_modes.is_empty());
}

#[test]
fn config_zero_threads_becomes_one() {
    let xml = "<fff_viewer_config><render_threads>0</render_threads></fff_viewer_config>";
    let parsed = AppConfig::parse_xml(xml, 3, "en".to_string()).unwrap();
    assert_eq!(parsed.render_threads, 1);
}

#[test]
fn config_bad_threads_keeps_default() {
    let xml = "<fff_viewer_config><render_threads>x</render_threads></fff_viewer_config>";
    let parsed = AppConfig::parse_xml(xml, 3, "en".to_string()).unwrap();
    assert_eq!(parsed.render_threads, 3);
}

#[test]
fn thread_counts_are_at_least_one() {
    assert_eq!(default_thread_count_for(0), 1);
    assert_eq!(default_thread_count_for(3), 1);
    assert_eq!(default_thread_count_for(16), 4);
    let c = AppConfig::parse_xml("<fff_viewer_config></fff_viewer_config>", 0, "en".to_string()).unwrap();
    assert_eq!(c.render_threads, 1);
    let c = AppConfig::parse_xml("<fff_viewer_config><render_threads>0</render_threads></fff_viewer_config>", 5, "en".to_string()).unwrap();
    assert_eq!(c.render_threads, 1);
}
