use fff_viewer::summary::SummaryValue;
use fff_viewer::thumbnail::{
    chain_continues, entry_count_accepted, list_read_len, parse_light_entries, parse_thumbnail_header,
    resolve_light_refs, select_thumbnail, thumbnail_pixels, HeaderError, LightIfd, LightRefs,
};
use fff_viewer::tag_text::{entry_tag_name, tag_hex};
use fff_viewer::tiff::{ByteOrder, PixelData, RgbPixels, TagValue, TiffError, TiffFile};

/// One IFD entry: tag, type, count, value field (little-endian).
fn entry(out: &mut Vec<u8>, tag: u16, typ: u16, count: u32, value: u32) {
    out.extend_from_slice(&tag.to_le_bytes());
    out.extend_from_slice(&typ.to_le_bytes());
    out.extend_from_slice(&count.to_le_bytes());
    out.extend_from_slice(&value.to_le_bytes());
}

/// A little-endian TIFF with one uncompressed RGB IFD of `w` × `h` pixels
/// whose sample bytes are 0, 1, 2, ... (mod 256).
fn rgb_tiff(w: u16, h: u16) -> Vec<u8> {
    let n_entries: u16 = 8;
    let ifd_size = 2 + 12 * n_entries as usize + 4;
    let data_off = 8 + ifd_size;
    let bytes = w as usize * h as usize * 3;
    let mut d = vec![0x49, 0x49, 0x2A, 0x00, 8, 0, 0, 0];
    d.extend_from_slice(&n_entries.to_le_bytes());
    entry(&mut d, 0x0100, 3, 1, w as u32);
    entry(&mut d, 0x0101, 3, 1, h as u32);
    entry(&mut d, 0x0102, 3, 1, 8);
    entry(&mut d, 0x0103, 3, 1, 1);
    entry(&mut d, 0x0106, 3, 1, 2);
    entry(&mut d, 0x0111, 4, 1, data_off as u32);
    entry(&mut d, 0x0115, 3, 1, 3);
    entry(&mut d, 0x0117, 4, 1, bytes as u32);
    d.extend_from_slice(&0u32.to_le_bytes());
    for i in 0..bytes {
        d.push((i % 256) as u8);
    }
    d
}

#[test]
fn header_errors() {
    assert!(matches!(TiffFile::parse(&[0x49, 0x49, 0x2A]), Err(TiffError::TooSmall)));
    assert!(matches!(
        TiffFile::parse(&[0x41, 0x42, 0x2A, 0, 8, 0, 0, 0]),
        Err(TiffError::InvalidByteOrder(0x41, 0x42))
    ));
    assert!(matches!(
        TiffFile::parse(&[0x49, 0x49, 0x2B, 0, 8, 0, 0, 0]),
        Err(TiffError::UnsupportedMagic(0x2B))
    ));
}

#[test]
fn parses_small_rgb_file() {
    let d = rgb_tiff(4, 4);
    let t = TiffFile::parse(&d).unwrap();
    assert_eq!(t.byte_order, ByteOrder::LittleEndian);
    assert_eq!(t.magic, 0x2A);
    assert_eq!(t.ifds.len(), 1);
    assert_eq!(t.file_size(), d.len());
    assert_eq!(t.find_tag_u32(0x0100), Some(4));
    assert_eq!(t.best_dimensions(), (4, 4));
    assert!(t.preview_jpeg.is_none());
}

#[test]
fn export_decodes_largest_image() {
    let d = rgb_tiff(2, 2);
    let t = TiffFile::parse(&d).unwrap();
    let p = t.decode_for_export().unwrap();
    assert_eq!((p.width, p.height), (2, 2));
    match p.data {
        PixelData::Rgb8(v) => assert_eq!(v, (0u8..12).collect::<Vec<u8>>()),
        PixelData::Rgb16(_) => panic!("expected 8-bit samples"),
    }
}

#[test]
fn downscaled_preview_samples_every_other_pixel() {
    let d = rgb_tiff(4, 4);
    let t = TiffFile::parse(&d).unwrap();
    let p = t.decode_preview_downscaled(2).unwrap();
    assert_eq!((p.width, p.height), (2, 2));
    // Row r, column c of the source starts at byte (r * 4 + c) * 3.
    let expect: Vec<u8> = [(0, 0), (0, 2), (2, 0), (2, 2)]
        .iter()
        .flat_map(|&(r, c)| {
            let b = (r * 4 + c) * 3;
            vec![b as u8, b as u8 + 1, b as u8 + 2]
        })
        .collect();
    match p.data {
        PixelData::Rgb8(v) => assert_eq!(v, expect),
        PixelData::Rgb16(_) => panic!("expected 8-bit samples"),
    }
}

#[test]
fn downscaled_preview_keeps_small_images() {
    let d = rgb_tiff(3, 2);
    let t = TiffFile::parse(&d).unwrap();
    let p = t.decode_preview_downscaled(10).unwrap();
    assert_eq!((p.width, p.height), (3, 2));
    match p.data {
        PixelData::Rgb8(v) => assert_eq!(v, (0u8..18).collect::<Vec<u8>>()),
        PixelData::Rgb16(_) => panic!("expected 8-bit samples"),
    }
}

#[test]
fn downscale_factor_rounds_up() {
    // 5 pixels wide, at most 2: factor 3, output 2 × 1.
    let d = rgb_tiff(5, 1);
    let t = TiffFile::parse(&d).unwrap();
    let p = t.decode_preview_downscaled(2).unwrap();
    assert_eq!((p.width, p.height), (2, 1));
    match p.data {
        PixelData::Rgb8(v) => assert_eq!(v, vec![0, 1, 2, 9, 10, 11]),
        PixelData::Rgb16(_) => panic!("expected 8-bit samples"),
    }
}

#[test]
fn metadata_summary_rows() {
    let d = rgb_tiff(4, 4);
    let t = TiffFile::parse(&d).unwrap();
    let rows = t.metadata_summary();
    assert!(!rows.is_empty());
    match &rows[0].1 {
        SummaryValue::Text(s) => assert_eq!(s, "TIFF-based FFF"),
        _ => panic!("format row"),
    }
    assert!(rows.iter().any(|(k, v)| k == "File Size" && matches!(v, SummaryValue::FileSize(n) if *n == d.len())));
}

#[test]
fn thumbnail_header() {
    assert_eq!(
        parse_thumbnail_header(&[0x4D, 0x4D, 0x00, 0x55, 0, 0, 0, 16]),
        Ok((ByteOrder::BigEndian, 16))
    );
    assert_eq!(parse_thumbnail_header(&[0x49, 0x4D, 0x2A, 0, 8, 0, 0, 0]), Err(HeaderError::InvalidByteOrder));
    assert_eq!(parse_thumbnail_header(&[0x49, 0x49, 0x2B, 0, 8, 0, 0, 0]), Err(HeaderError::NotTiff));
}

#[test]
fn thumbnail_chain_limits() {
    assert!(chain_continues(8, 100, 0));
    assert!(!chain_continues(0, 100, 0));
    assert!(!chain_continues(100, 100, 0));
    assert!(!chain_continues(8, 100, 20));
    assert!(entry_count_accepted(1000));
    assert!(!entry_count_accepted(1001));
    assert_eq!(list_read_len(3), 12);
    assert_eq!(list_read_len(70000), 4 * 65536);
}

#[test]
fn thumbnail_entries_and_refs() {
    let mut buf = Vec::new();
    entry(&mut buf, 0x00FE, 4, 1, 1);
    entry(&mut buf, 0x0100, 3, 1, 7);
    entry(&mut buf, 0x0101, 4, 1, 5);
    entry(&mut buf, 0x0102, 3, 3, 400);
    entry(&mut buf, 0x0111, 4, 2, 500);
    entry(&mut buf, 0x0117, 4, 1, 105);
    entry(&mut buf, 0x9999, 4, 1, 1);
    buf.extend_from_slice(&1234u32.to_le_bytes());
    let (l, refs, next) = parse_light_entries(&buf, 7, ByteOrder::LittleEndian);
    assert_eq!(next, 1234);
    assert_eq!((l.width, l.height, l.subfile_type, l.bps), (7, 5, 1, 8));
    assert_eq!(l.strip_byte_counts, vec![105]);
    assert!(l.strip_offsets.is_empty());
    assert_eq!(refs, LightRefs { bps_at: Some(400), offsets_at: Some((500, 2)), counts_at: None });
    let l = resolve_light_refs(
        l,
        ByteOrder::LittleEndian,
        Some(vec![16, 0]),
        Some(vec![1, 0, 0, 0, 2, 0, 0, 0]),
        None,
        2,
        0,
    );
    assert_eq!(l.bps, 16);
    assert_eq!(l.strip_offsets, vec![1, 2]);
    assert_eq!(l.strip_byte_counts, vec![105]);
}

fn light(w: u32, h: u32, bps: u32, sub: u32) -> LightIfd {
    LightIfd {
        width: w,
        height: h,
        bps,
        compression: 1,
        photometric: 2,
        spp: 3,
        subfile_type: sub,
        strip_offsets: vec![0],
        strip_byte_counts: vec![w * h * 3],
    }
}

#[test]
fn thumbnail_selection_prefers_reduced_8bit_small() {
    let v = vec![light(100, 100, 16, 0), light(50, 50, 16, 1), light(60, 60, 8, 1), light(40, 40, 8, 1)];
    assert_eq!(select_thumbnail(&v), Some(3));
    let v = vec![light(100, 100, 16, 0), light(5000, 10, 8, 1)];
    assert_eq!(select_thumbnail(&v), Some(0));
    let mut odd = light(10, 10, 8, 1);
    odd.compression = 7;
    assert_eq!(select_thumbnail(&vec![odd]), None);
}

#[test]
fn thumbnail_pixel_data() {
    let l = light(1, 2, 8, 1);
    let p = thumbnail_pixels(&l, &[1, 2, 3, 4, 5, 6, 7], ByteOrder::LittleEndian).unwrap();
    match p.data {
        PixelData::Rgb8(v) => assert_eq!(v, vec![1, 2, 3, 4, 5, 6]),
        PixelData::Rgb16(_) => panic!("8-bit"),
    }
    assert!(thumbnail_pixels(&l, &[1, 2, 3], ByteOrder::LittleEndian).is_none());
    let l16 = light(1, 1, 16, 1);
    let p = thumbnail_pixels(&l16, &[0, 1, 0, 2, 0, 3], ByteOrder::BigEndian).unwrap();
    match p.data {
        PixelData::Rgb16(v) => assert_eq!(v, vec![1, 2, 3]),
        PixelData::Rgb8(_) => panic!("16-bit"),
    }
}

fn jpeg_2x2() -> Vec<u8> {
    let img = image::RgbImage::from_raw(2, 2, vec![200u8; 12]).unwrap();
    let mut buf = Vec::new();
    image::DynamicImage::ImageRgb8(img)
        .write_to(&mut std::io::Cursor::new(&mut buf), image::ImageFormat::Jpeg)
        .unwrap();
    buf
}

#[test]
fn preview_jpeg_is_decoded_first() {
    let mut t = TiffFile::parse(&rgb_tiff(4, 4)).unwrap();
    t.preview_jpeg = Some(jpeg_2x2());
    for p in [t.decode_preview_image(), t.decode_thumbnail(), t.decode_preview_downscaled(1)] {
        let p = p.unwrap();
        assert_eq!((p.width, p.height), (2, 2));
        match p.data {
            PixelData::Rgb8(v) => {
                assert_eq!(v.len(), 12);
                assert!(v.iter().all(|&x| x > 150));
            },
            PixelData::Rgb16(_) => panic!("JPEG gives 8-bit samples"),
        }
    }
}

#[test]
fn undecodable_preview_jpeg_falls_back() {
    let mut t = TiffFile::parse(&rgb_tiff(2, 2)).unwrap();
    t.preview_jpeg = Some(vec![0xFF, 0xD8, 0x00]);
    let p = t.decode_preview_image().unwrap();
    assert_eq!((p.width, p.height), (2, 2));
    match p.data {
        PixelData::Rgb8(v) => assert_eq!(v, (0u8..12).collect::<Vec<u8>>()),
        PixelData::Rgb16(_) => panic!("8-bit"),
    }
    assert_eq!(t.decode_thumbnail().unwrap().width, 2);
}

#[test]
fn tag_value_display_text() {
    assert_eq!(TagValue::Ascii("Hasselblad".to_string()).display_text().unwrap(), "Hasselblad");
    assert_eq!(TagValue::Short(vec![7]).display_text().unwrap(), "7");
    assert_eq!(TagValue::Short(vec![1, 2, 3]).display_text().unwrap(), "[1, 2, 3]");
    assert_eq!(
        TagValue::Long((1..=10).collect()).display_text().unwrap(),
        "[1, 2, 3, 4, 5, 6, 7, 8, ... (10 total)]"
    );
    assert_eq!(TagValue::Rational(vec![(300, 1)]).display_text().unwrap(), "300");
    assert_eq!(TagValue::Rational(vec![(1, 250)]).display_text().unwrap(), "1/250");
    assert_eq!(TagValue::Rational(vec![(5, 0)]).display_text().unwrap(), "0");
    assert_eq!(TagValue::Rational(vec![(1, 2), (3, 4)]).display_text().unwrap(), "[1/2, 3/4]");
    assert_eq!(TagValue::SRational(vec![(-1, 3)]).display_text().unwrap(), "-1/3");
    assert_eq!(TagValue::Byte(vec![1, 2]).display_text().unwrap(), "[2 bytes]");
    assert_eq!(TagValue::Byte(vec![9]).display_text().unwrap(), "9");
    assert_eq!(TagValue::Undefined(vec![0; 5]).display_text().unwrap(), "[5 bytes]");
    assert_eq!(TagValue::SByte(vec![-1]).display_text().unwrap(), "[1 sbytes]");
    assert_eq!(TagValue::SShort((-5..5).collect()).display_text().unwrap(), "[-5, -4, -3, -2, -1, 0, 1, 2]");
    assert_eq!(TagValue::Float(vec![0x3F80_0000]).display_text(), None);
    assert_eq!(TagValue::Double(vec![]).display_text(), None);
}

#[test]
fn tag_names_and_hex() {
    assert_eq!(tag_hex(0xC51A), "0xC51A");
    assert_eq!(tag_hex(0x0100), "0x0100");
    assert_eq!(entry_tag_name(false, 0x0100), "ImageWidth");
    assert_eq!(entry_tag_name(true, 0x0005), "WhiteBalance");
    assert_eq!(entry_tag_name(true, 0x0100), "ImageWidth");
    assert_eq!(entry_tag_name(false, 0xFFFF), "Unknown");
}

#[test]
fn previews_from_decoded_jpeg() {

    let t = TiffFile::parse(&rgb_tiff(2, 2)).unwrap();
    let given = RgbPixels { width: 1, height: 1, data: PixelData::Rgb8(vec![1, 2, 3]) };
    assert_eq!(t.preview_from(Some(given.clone())).unwrap().width, 1);
    assert_eq!(t.thumbnail_from(Some(given.clone())).unwrap().width, 1);
    assert_eq!(t.downscaled_from(Some(given), 1).unwrap().width, 1);
    assert_eq!(t.preview_from(None).unwrap().width, 2);
    assert_eq!(t.thumbnail_from(None).unwrap().width, 2);
    assert_eq!(t.downscaled_from(None, 1).unwrap().width, 1);
}

#[test]
fn downscaled_preview_with_zero_bound_keeps_first_pixel() {
    let d = rgb_tiff(4, 4);
    let t = TiffFile::parse(&d).unwrap();
    let p = t.decode_preview_downscaled(0).unwrap();
    assert_eq!((p.width, p.height), (1, 1));
    match p.data {
        PixelData::Rgb8(v) => assert_eq!(v, vec![0u8, 1, 2]),
        PixelData::Rgb16(_) => panic!("expected 8-bit samples"),
    }
}

#[test]
fn unreadable_first_ifd_reports_its_error() {
    // Entry count 0x0500 (1280) is over the limit of 1000.
    let mut d = vec![0x49u8, 0x49, 0x2A, 0x00, 0x08, 0x00, 0x00, 0x00, 0x00, 0x05];
    d.extend_from_slice(&[0u8; 16]);
    assert_eq!(TiffFile::parse(&d).unwrap_err(), TiffError::TooManyEntries(1280));
    // Two entries announced, but the bytes end first.
    let d = vec![0x49u8, 0x49, 0x2A, 0x00, 0x08, 0x00, 0x00, 0x00, 0x02, 0x00, 0x00];
    assert_eq!(TiffFile::parse(&d).unwrap_err(), TiffError::UnexpectedEof);
}
