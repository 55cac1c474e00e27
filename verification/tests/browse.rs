use fff_viewer::browse::{is_scan_extension, preset_order, samples_to_8bit, shorten_dir_name};

#[test]
fn scan_extensions() {
    assert!(is_scan_extension("fff"));
    assert!(is_scan_extension("3FR"));
    assert!(is_scan_extension("Tiff"));
    assert!(is_scan_extension("tif"));
    assert!(!is_scan_extension("jpg"));
    assert!(!is_scan_extension("ff"));
}

#[test]
fn creative_cloud_folders() {
    assert_eq!(shorten_dir_name("Creative Cloud Files - john.doe@example.com"), "Creative Cloud Files");
    assert_eq!(shorten_dir_name("CoreSync - x - Adobe Creative Cloud"), "CoreSync");
    assert_eq!(shorten_dir_name("Photos - Creative Cloud backup"), "Photos");
}

#[test]
fn email_redacted() {
    assert_eq!(shorten_dir_name("Scans john.doe@example.com"), "Scans ***");
    assert_eq!(shorten_dir_name("Dropbox - jane@mail.org"), "Dropbox");
    assert_eq!(shorten_dir_name("team@local"), "team@local");
}

#[test]
fn long_names_cut() {
    let long = "a".repeat(45);
    assert_eq!(shorten_dir_name(&long), format!("{}\u{2026}", "a".repeat(37)));
    assert_eq!(shorten_dir_name(&"b".repeat(40)), "b".repeat(40));
}

#[test]
fn high_bytes_for_display() {
    assert_eq!(samples_to_8bit(&[0, 255, 256, 65535]), vec![0, 0, 1, 255]);
}

#[test]
fn presets_are_listed_by_category_then_name() {
    let keys: Vec<(String, String)> = vec![
        ("Portrait".to_string(), "Warm".to_string()),
        ("Landscape".to_string(), "Vivid".to_string()),
        ("Portrait".to_string(), "Cool".to_string()),
        ("".to_string(), "Base".to_string()),
        ("Landscape".to_string(), "Vivid".to_string()),
        ("Landscape".to_string(), "Muted".to_string()),
    ];
    assert_eq!(preset_order(&keys), vec![3, 5, 1, 4, 2, 0]);
}

#[test]
fn preset_order_of_nothing_is_empty() {
    assert_eq!(preset_order(&Vec::new()), Vec::<usize>::new());
}

#[test]
fn preset_names_compare_by_code_point() {
    let keys: Vec<(String, String)> = vec![
        ("c".to_string(), "b".to_string()),
        ("c".to_string(), "B".to_string()),
        ("c".to_string(), "ab".to_string()),
        ("c".to_string(), "a".to_string()),
        ("c".to_string(), "é".to_string()),
    ];
    assert_eq!(preset_order(&keys), vec![1, 3, 2, 0, 4]);
}
