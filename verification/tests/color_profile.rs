use fff_viewer::color::adjust::{extract_embedded_icc, tag_search_ends};
use fff_viewer::color::profile::parse_icc_detail;

fn be32(d: &mut [u8], p: usize, v: u32) {
    d[p..p + 4].copy_from_slice(&v.to_be_bytes());
}

/// A profile header with one `desc` tag holding "sRGB test".
fn profile() -> Vec<u8> {
    let text = b"sRGB test\0";
    let desc_off = 132 + 12;
    let desc_size = 12 + text.len();
    let total = desc_off + desc_size;
    let mut d = vec![0u8; total];
    be32(&mut d, 0, total as u32);
    d[4..8].copy_from_slice(b"lcms");
    d[8] = 2;
    d[9] = 0x10;
    d[12..16].copy_from_slice(b"mntr");
    d[16..20].copy_from_slice(b"RGB ");
    d[20..24].copy_from_slice(b"XYZ ");
    for (k, v) in [2024u16, 3, 9, 14, 5, 0].iter().enumerate() {
        d[24 + 2 * k..26 + 2 * k].copy_from_slice(&v.to_be_bytes());
    }
    d[36..40].copy_from_slice(b"acsp");
    d[48..52].copy_from_slice(b"HASB");
    d[52..56].copy_from_slice(b"X5  ");
    be32(&mut d, 64, 1);
    be32(&mut d, 68, 0x0000_F6D6);
    be32(&mut d, 72, 0x0001_0000);
    be32(&mut d, 76, 0x0000_D32D);
    be32(&mut d, 128, 1);
    d[132..136].copy_from_slice(b"desc");
    be32(&mut d, 136, desc_off as u32);
    be32(&mut d, 140, desc_size as u32);
    d[desc_off..desc_off + 4].copy_from_slice(b"desc");
    be32(&mut d, desc_off + 8, text.len() as u32);
    d[desc_off + 12..desc_off + 12 + text.len()].copy_from_slice(text);
    d
}

#[test]
fn icc_header_fields() {
    let d = profile();
    let p = parse_icc_detail(&d).unwrap();
    assert_eq!(p.size as usize, d.len());
    assert_eq!(p.cmm_type, "lcms");
    assert_eq!(p.version, "2.1.0");
    assert_eq!(p.device_class, "mntr");
    assert_eq!(p.device_class_name, "Monitor");
    assert_eq!(p.color_space, "RGB");
    assert_eq!(p.pcs, "XYZ");
    assert_eq!(p.date_time, "2024-03-09 14:05:00");
    assert_eq!(p.rendering_intent, "Relative Colorimetric");
    assert_eq!(p.illuminant_y, 0x0001_0000);
    assert_eq!(p.manufacturer, "HASB");
    assert_eq!(p.model, "X5");
    assert_eq!(p.description, "sRGB test");
    assert_eq!(p.tag_count, 1);
    assert_eq!(p.tags, vec![("desc".to_string(), 144, 22)]);
}

#[test]
fn icc_too_short() {
    assert!(parse_icc_detail(&[0u8; 131]).is_none());
}

/// A little-endian TIFF whose only IFD holds tag 0xC51A with `payload`.
fn tiff_with_icc(payload: &[u8]) -> Vec<u8> {
    let mut d = vec![0x49, 0x49, 0x2A, 0x00, 8, 0, 0, 0];
    d.extend_from_slice(&1u16.to_le_bytes());
    d.extend_from_slice(&0xC51Au16.to_le_bytes());
    d.extend_from_slice(&7u16.to_le_bytes());
    d.extend_from_slice(&(payload.len() as u32).to_le_bytes());
    d.extend_from_slice(&26u32.to_le_bytes());
    d.extend_from_slice(&0u32.to_le_bytes());
    d.extend_from_slice(payload);
    d
}

fn rows(tag: &str) -> Vec<(String, String, String, String)> {
    vec![("IFD0".to_string(), tag.to_string(), "ICC".to_string(), String::new())]
}

#[test]
fn embedded_icc_found() {
    let icc = profile();
    let d = tiff_with_icc(&icc);
    assert!(tag_search_ends(&d, 0xC51A));
    assert_eq!(extract_embedded_icc(&d, &rows("0xC51A")), Some(icc));
}

#[test]
fn embedded_icc_needs_row_and_signature() {
    let icc = profile();
    let d = tiff_with_icc(&icc);
    assert_eq!(extract_embedded_icc(&d, &rows("0x0100")), None);
    let mut not_icc = icc.clone();
    not_icc[36] = b'x';
    let d2 = tiff_with_icc(&not_icc);
    assert_eq!(extract_embedded_icc(&d2, &rows("0xC51A")), None);
}
