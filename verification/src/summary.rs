//! The metadata summary of a parsed file: the rows shown for it, in order.
use vstd::prelude::*;

use crate::tags::{
    compression_label, compression_name, metering_mode_label, metering_mode_name, orientation_label, orientation_name,
    photometric_label, photometric_name, white_balance_label, white_balance_name,
};
use crate::text::{append_str, decimal, u64_decimal};
use crate::tiff::{
    ifds_view, spec_as_u32, spec_best_dimensions, spec_find_tag, spec_ifd_get, spec_ifd_get_u32, ByteOrder, IfdV,
    TagValue, TagValueV, TiffFile,
};

verus! {

/// The value of a summary row. Rows whose text is a number with decimals
/// name the tag (or give the quantities) and the format, and the text is
/// made where the row is shown.
#[derive(Debug, Clone)]
pub enum SummaryValue {
    /// The row's text.
    Text(String),
    /// The file size in bytes, shown in B, KB, MB or GB.
    FileSize(usize),
    /// The whole value of the first tag `tag` found.
    Tag(u16),
    /// The first value of the first tag `tag` found, as a number with
    /// `decimals` decimals, between `prefix` and `suffix`.
    Number { tag: u16, decimals: u32, prefix: String, suffix: String },
    /// A time of `n / d` seconds, shown with four decimals and `s`.
    Seconds(u32, u32),
}

/// Model of a `SummaryValue`.
pub enum SummaryValueV {
    Text(Seq<char>),
    FileSize(nat),
    Tag(u16),
    Number(u16, u32, Seq<char>, Seq<char>),
    Seconds(u32, u32),
}

impl View for SummaryValue {
    type V = SummaryValueV;

    open spec fn view(&self) -> SummaryValueV {
        match self {
            SummaryValue::Text(s) => SummaryValueV::Text(s@),
            SummaryValue::FileSize(n) => SummaryValueV::FileSize(*n as nat),
            SummaryValue::Tag(t) => SummaryValueV::Tag(*t),
            SummaryValue::Number { tag, decimals, prefix, suffix } => SummaryValueV::Number(
                *tag,
                *decimals,
                prefix@,
                suffix@,
            ),
            SummaryValue::Seconds(n, d) => SummaryValueV::Seconds(*n, *d),
        }
    }
}

pub type Row = (Seq<char>, SummaryValueV);

/// The rows as their views.
pub open spec fn rows_view(v: Seq<(String, SummaryValue)>) -> Seq<Row> {
    v.map_values(|r: (String, SummaryValue)| (r.0@, r.1@))
}

/// The first value of `tag` in the IFDs.
pub open spec fn find(iv: Seq<IfdV>, tag: u16) -> Option<TagValueV> {
    spec_find_tag(iv, tag, 0)
}

/// The first value of `tag` in the IFDs, as `u32`.
pub open spec fn find_u32(iv: Seq<IfdV>, tag: u16) -> Option<u32> {
    match find(iv, tag) {
        Some(v) => spec_as_u32(v),
        None => None,
    }
}

/// A row with the text of `tag`, when its first value is text.
pub open spec fn text_row(iv: Seq<IfdV>, name: Seq<char>, tag: u16) -> Seq<Row> {
    match find(iv, tag) {
        Some(TagValueV::Ascii(s)) => seq![(name, SummaryValueV::Text(s))],
        _ => seq![],
    }
}

/// A row with the name of the number under `tag`, when there is one.
pub open spec fn named_row(iv: Seq<IfdV>, name: Seq<char>, tag: u16, label: spec_fn(u32) -> Seq<char>) -> Seq<Row> {
    match find_u32(iv, tag) {
        Some(v) => seq![(name, SummaryValueV::Text(label(v)))],
        None => seq![],
    }
}

/// Whether a value has a first number (an integer, rational or floating-point value).
pub open spec fn has_number(v: TagValueV) -> bool {
    match v {
        TagValueV::Byte(s) => s.len() > 0,
        TagValueV::Short(s) => s.len() > 0,
        TagValueV::Long(s) => s.len() > 0,
        TagValueV::Rational(s) => s.len() > 0,
        TagValueV::SRational(s) => s.len() > 0,
        TagValueV::Float(s) => s.len() > 0,
        TagValueV::Double(s) => s.len() > 0,
        _ => false,
    }
}

/// A row with the number under `tag`, when it has one.
pub open spec fn number_row(iv: Seq<IfdV>, name: Seq<char>, tag: u16, decimals: u32, prefix: Seq<char>, suffix: Seq<char>) -> Seq<Row> {
    match find(iv, tag) {
        Some(v) => if has_number(v) {
            seq![(name, SummaryValueV::Number(tag, decimals, prefix, suffix))]
        } else {
            seq![]
        },
        None => seq![],
    }
}

/// The unit written after a resolution.
pub open spec fn unit_text(iv: Seq<IfdV>) -> Seq<char> {
    let unit = match find_u32(iv, 0x0128) {
        Some(u) => u,
        None => 2,
    };
    if unit == 2 {
        " dpi"@
    } else if unit == 3 {
        " dpcm"@
    } else {
        ""@
    }
}

/// `w × h`.
pub open spec fn dims_text(w: u32, h: u32) -> Seq<char> {
    decimal(w as nat) + " × "@ + decimal(h as nat)
}

/// The thumbnail row: from the first IFD whose NewSubfileType is 1, when it
/// has both dimensions.
pub open spec fn thumb_rows(iv: Seq<IfdV>, i: int) -> Seq<Row>
    decreases iv.len() - i,
{
    if i < 0 || i >= iv.len() {
        seq![]
    } else {
        let t = match spec_ifd_get_u32(iv[i], 0x00FE) {
            Some(x) => x,
            None => 0,
        };
        if t == 1 {
            let w = match spec_ifd_get_u32(iv[i], 0x0100) {
                Some(x) => x,
                None => 0,
            };
            let h = match spec_ifd_get_u32(iv[i], 0x0101) {
                Some(x) => x,
                None => 0,
            };
            if w > 0 && h > 0 {
                seq![("Thumbnail"@, SummaryValueV::Text(dims_text(w, h)))]
            } else {
                seq![]
            }
        } else {
            thumb_rows(iv, i + 1)
        }
    }
}

/// The exposure time row: `1/d` when the numerator is 1, else the quotient.
pub open spec fn exposure_rows(iv: Seq<IfdV>) -> Seq<Row> {
    match find(iv, 0x829A) {
        Some(TagValueV::Rational(s)) => if s.len() > 0 && s[0].1 != 0 {
            if s[0].0 == 1 {
                seq![("ExposureTime"@, SummaryValueV::Text("1/"@ + decimal(s[0].1 as nat)))]
            } else {
                seq![("ExposureTime"@, SummaryValueV::Seconds(s[0].0, s[0].1))]
            }
        } else {
            seq![]
        },
        _ => seq![],
    }
}

/// The rows of one MakerNote IFD: white balance and Phocus version.
pub open spec fn makernote_rows(ifd: IfdV) -> Seq<Row> {
    (match spec_ifd_get_u32(ifd, 0x0005) {
        Some(v) => seq![("WhiteBalance"@, SummaryValueV::Text(white_balance_label(v)))],
        None => seq![],
    }) + (match spec_ifd_get(ifd, 0x0028) {
        Some(TagValueV::Ascii(s)) => seq![("PhocusVersion"@, SummaryValueV::Text(s))],
        _ => seq![],
    })
}

/// The rows of the MakerNote IFDs among the first `n`, in order.
pub open spec fn makernotes_rows(iv: Seq<IfdV>, n: int) -> Seq<Row>
    decreases n,
{
    if n <= 0 || n > iv.len() {
        seq![]
    } else {
        makernotes_rows(iv, n - 1) + (if iv[n - 1].name == "MakerNote"@ {
            makernote_rows(iv[n - 1])
        } else {
            seq![]
        })
    }
}

/// The rows about the file itself.
pub open spec fn file_rows(magic: u16, bo: ByteOrder, size: nat, count: nat) -> Seq<Row> {
    seq![
        ("Format"@, SummaryValueV::Text(if magic == 0x55 { "Imacon FFF (3F)"@ } else { "TIFF-based FFF"@ })),
        ("Byte Order"@, SummaryValueV::Text(match bo {
            ByteOrder::LittleEndian => "Little-Endian (Intel)"@,
            ByteOrder::BigEndian => "Big-Endian (Motorola)"@,
        })),
        ("File Size"@, SummaryValueV::FileSize(size)),
        ("IFD Count"@, SummaryValueV::Text(decimal(count))),
    ]
}

/// The rows about the image.
pub open spec fn image_rows(iv: Seq<IfdV>) -> Seq<Row> {
    let (w, h) = spec_best_dimensions(iv);
    text_row(iv, "Make"@, 0x010F) + text_row(iv, "Model"@, 0x0110) + text_row(iv, "Software"@, 0x0131) + text_row(
        iv,
        "DateTime"@,
        0x0132,
    ) + text_row(iv, "DateTimeOriginal"@, 0x9003) + (if w > 0 && h > 0 {
        seq![("Dimensions"@, SummaryValueV::Text(dims_text(w, h)))]
    } else {
        seq![]
    }) + thumb_rows(iv, 0) + (match find(iv, 0x0102) {
        Some(_) => seq![("BitsPerSample"@, SummaryValueV::Tag(0x0102))],
        None => seq![],
    })
}

/// The rows about the coding and the capture.
pub open spec fn capture_rows(iv: Seq<IfdV>) -> Seq<Row> {
    named_row(iv, "Compression"@, 0x0103, |v: u32| compression_label(v)) + named_row(
        iv,
        "Photometric"@,
        0x0106,
        |v: u32| photometric_label(v),
    ) + named_row(iv, "Orientation"@, 0x0112, |v: u32| orientation_label(v)) + number_row(
        iv,
        "XResolution"@,
        0x011A,
        0,
        ""@,
        unit_text(iv),
    ) + number_row(iv, "YResolution"@, 0x011B, 0, ""@, unit_text(iv)) + exposure_rows(iv) + number_row(
        iv,
        "FNumber"@,
        0x829D,
        1,
        "f/"@,
        ""@,
    ) + (match find_u32(iv, 0x8827) {
        Some(v) => seq![("ISO"@, SummaryValueV::Text(decimal(v as nat)))],
        None => seq![],
    }) + number_row(iv, "FocalLength"@, 0x920A, 1, ""@, " mm"@) + named_row(
        iv,
        "MeteringMode"@,
        0x9207,
        |v: u32| metering_mode_label(v),
    ) + text_row(iv, "BodySerialNumber"@, 0xA431) + text_row(iv, "CameraSerialNumber"@, 0xC62F)
}

/// The summary rows of a file: file, image, coding and capture rows, then
/// those of the MakerNote IFDs.
pub open spec fn summary_rows(magic: u16, bo: ByteOrder, size: nat, iv: Seq<IfdV>) -> Seq<Row> {
    file_rows(magic, bo, size, iv.len()) + image_rows(iv) + capture_rows(iv) + makernotes_rows(iv, iv.len() as int)
}

fn text_of(t: &str) -> (s: String)
    ensures
        s@ == t@,
{
    let mut s = String::new();
    append_str(&mut s, t);
    assert(s@ =~= t@);
    s
}

fn push_row(out: &mut Vec<(String, SummaryValue)>, name: &str, v: SummaryValue)
    ensures
        rows_view(final(out)@) == rows_view(old(out)@).push((name@, v@)),
{
    let n = text_of(name);
    let ghost vv = v@;
    out.push((n, v));
    assert(rows_view(out@) =~= rows_view(old(out)@).push((name@, vv)));
}

fn dims_string(w: u32, h: u32) -> (s: String)
    ensures
        s@ == dims_text(w, h),
{
    let mut s = u64_decimal(w as u64);
    append_str(&mut s, " × ");
    let t = u64_decimal(h as u64);
    append_str(&mut s, t.as_str());
    assert(s@ =~= dims_text(w, h));
    s
}

fn has_number_exec(v: &TagValue) -> (r: bool)
    ensures
        r == has_number(v@),
{
    match v {
        TagValue::Byte(s) => s.len() > 0,
        TagValue::Short(s) => s.len() > 0,
        TagValue::Long(s) => s.len() > 0,
        TagValue::Rational(s) => s.len() > 0,
        TagValue::SRational(s) => s.len() > 0,
        TagValue::Float(s) => s.len() > 0,
        TagValue::Double(s) => s.len() > 0,
        _ => false,
    }
}

impl TiffFile {
    fn text_rows_into(&self, out: &mut Vec<(String, SummaryValue)>, name: &str, tag: u16)
        ensures
            rows_view(final(out)@) == rows_view(old(out)@) + text_row(ifds_view(self.ifds@), name@, tag),
    {
        match self.find_tag_string(tag) {
            Some(s) => {
                push_row(out, name, SummaryValue::Text(s));
            },
            None => {
                assert(rows_view(out@) + Seq::<Row>::empty() =~= rows_view(out@));
            },
        }
    }

    fn number_rows_into(
        &self,
        out: &mut Vec<(String, SummaryValue)>,
        name: &str,
        tag: u16,
        decimals: u32,
        prefix: &str,
        suffix: String,
    )
        ensures
            rows_view(final(out)@) == rows_view(old(out)@) + number_row(
                ifds_view(self.ifds@),
                name@,
                tag,
                decimals,
                prefix@,
                suffix@,
            ),
    {
        let ghost sv = suffix@;
        match self.find_tag_value(tag) {
            Some(v) => {
                if has_number_exec(v) {
                    let p = text_of(prefix);
                    push_row(out, name, SummaryValue::Number { tag, decimals, prefix: p, suffix });
                } else {
                    assert(rows_view(out@) + Seq::<Row>::empty() =~= rows_view(out@));
                }
            },
            None => {
                assert(rows_view(out@) + Seq::<Row>::empty() =~= rows_view(out@));
            },
        }
    }

    fn unit_string(&self) -> (s: String)
        ensures
            s@ == unit_text(ifds_view(self.ifds@)),
    {
        let unit = match self.find_tag_u32(0x0128) {
            Some(u) => u,
            None => 2,
        };
        if unit == 2 {
            text_of(" dpi")
        } else if unit == 3 {
            text_of(" dpcm")
        } else {
            text_of("")
        }
    }

    fn thumb_rows_into(&self, out: &mut Vec<(String, SummaryValue)>)
        ensures
            rows_view(final(out)@) == rows_view(old(out)@) + thumb_rows(ifds_view(self.ifds@), 0),
    {
        let ghost iv = ifds_view(self.ifds@);
        let mut i: usize = 0;
        while i < self.ifds.len()
            invariant
                i <= self.ifds@.len(),
                iv == ifds_view(self.ifds@),
                out@ == old(out)@,
                thumb_rows(iv, 0) == thumb_rows(iv, i as int),
            decreases self.ifds@.len() - i,
        {
            assert(iv[i as int] == self.ifds@[i as int]@);
            let t = match self.ifds[i].get_u32(0x00FE) {
                Some(x) => x,
                None => 0,
            };
            if t == 1 {
                let w = match self.ifds[i].get_u32(0x0100) {
                    Some(x) => x,
                    None => 0,
                };
                let h = match self.ifds[i].get_u32(0x0101) {
                    Some(x) => x,
                    None => 0,
                };
                if w > 0 && h > 0 {
                    let d = dims_string(w, h);
                    push_row(out, "Thumbnail", SummaryValue::Text(d));
                    assert(seq![("Thumbnail"@, SummaryValueV::Text(dims_text(w, h)))] =~= Seq::<Row>::empty().push(
                        ("Thumbnail"@, SummaryValueV::Text(dims_text(w, h))),
                    ));
                    assert(rows_view(out@) =~= rows_view(old(out)@) + thumb_rows(iv, 0));
                } else {
                    assert(rows_view(out@) + Seq::<Row>::empty() =~= rows_view(out@));
                }
                return;
            }
            i = i + 1;
        }
        assert(rows_view(out@) + Seq::<Row>::empty() =~= rows_view(out@));
    }

    fn image_rows_vec(&self) -> (r: Vec<(String, SummaryValue)>)
        ensures
            rows_view(r@) == image_rows(ifds_view(self.ifds@)),
    {
        let ghost iv = ifds_view(self.ifds@);
        let mut out: Vec<(String, SummaryValue)> = Vec::new();
        assert(rows_view(out@) =~= Seq::<Row>::empty());
        self.text_rows_into(&mut out, "Make", 0x010F);
        self.text_rows_into(&mut out, "Model", 0x0110);
        self.text_rows_into(&mut out, "Software", 0x0131);
        self.text_rows_into(&mut out, "DateTime", 0x0132);
        self.text_rows_into(&mut out, "DateTimeOriginal", 0x9003);
        let ghost a5 = rows_view(out@);
        let (w, h) = self.best_dimensions();
        if w > 0 && h > 0 {
            let d = dims_string(w, h);
            push_row(&mut out, "Dimensions", SummaryValue::Text(d));
        }
        assert(rows_view(out@) =~= a5 + (if w > 0 && h > 0 {
            seq![("Dimensions"@, SummaryValueV::Text(dims_text(w, h)))]
        } else {
            seq![]
        }));
        self.thumb_rows_into(&mut out);
        let ghost a7 = rows_view(out@);
        match self.find_tag_value(0x0102) {
            Some(_) => {
                push_row(&mut out, "BitsPerSample", SummaryValue::Tag(0x0102));
            },
            None => {},
        }
        assert(rows_view(out@) =~= a7 + (match find(iv, 0x0102) {
            Some(_) => seq![("BitsPerSample"@, SummaryValueV::Tag(0x0102))],
            None => seq![],
        }));
        assert(rows_view(out@) =~= image_rows(iv));
        out
    }

    fn capture_rows_vec(&self) -> (r: Vec<(String, SummaryValue)>)
        ensures
            rows_view(r@) == capture_rows(ifds_view(self.ifds@)),
    {
        let ghost iv = ifds_view(self.ifds@);
        let mut out: Vec<(String, SummaryValue)> = Vec::new();
        assert(rows_view(out@) =~= Seq::<Row>::empty());
        let ghost a0 = rows_view(out@);
        match self.find_tag_u32(0x0103) {
            Some(v) => {
                push_row(&mut out, "Compression", SummaryValue::Text(text_of(compression_name(v))));
            },
            None => {},
        }
        assert(rows_view(out@) =~= a0 + named_row(iv, "Compression"@, 0x0103, |v: u32| compression_label(v)));
        let ghost a1 = rows_view(out@);
        match self.find_tag_u32(0x0106) {
            Some(v) => {
                push_row(&mut out, "Photometric", SummaryValue::Text(text_of(photometric_name(v))));
            },
            None => {},
        }
        assert(rows_view(out@) =~= a1 + named_row(iv, "Photometric"@, 0x0106, |v: u32| photometric_label(v)));
        let ghost a2 = rows_view(out@);
        match self.find_tag_u32(0x0112) {
            Some(v) => {
                push_row(&mut out, "Orientation", SummaryValue::Text(text_of(orientation_name(v))));
            },
            None => {},
        }
        assert(rows_view(out@) =~= a2 + named_row(iv, "Orientation"@, 0x0112, |v: u32| orientation_label(v)));
        let u = self.unit_string();
        self.number_rows_into(&mut out, "XResolution", 0x011A, 0, "", u);
        let u = self.unit_string();
        self.number_rows_into(&mut out, "YResolution", 0x011B, 0, "", u);
        let ghost a5 = rows_view(out@);
        match self.find_tag_value(0x829A) {
            Some(TagValue::Rational(s)) => {
                if s.len() > 0 && s[0].1 != 0 {
                    if s[0].0 == 1 {
                        let mut t = text_of("1/");
                        let d = u64_decimal(s[0].1 as u64);
                        append_str(&mut t, d.as_str());
                        push_row(&mut out, "ExposureTime", SummaryValue::Text(t));
                    } else {
                        push_row(&mut out, "ExposureTime", SummaryValue::Seconds(s[0].0, s[0].1));
                    }
                }
            },
            _ => {},
        }
        assert(rows_view(out@) =~= a5 + exposure_rows(iv));
        self.number_rows_into(&mut out, "FNumber", 0x829D, 1, "f/", text_of(""));
        let ghost a7 = rows_view(out@);
        match self.find_tag_u32(0x8827) {
            Some(v) => {
                push_row(&mut out, "ISO", SummaryValue::Text(u64_decimal(v as u64)));
            },
            None => {},
        }
        assert(rows_view(out@) =~= a7 + (match find_u32(iv, 0x8827) {
            Some(v) => seq![("ISO"@, SummaryValueV::Text(decimal(v as nat)))],
            None => seq![],
        }));
        self.number_rows_into(&mut out, "FocalLength", 0x920A, 1, "", text_of(" mm"));
        let ghost a9 = rows_view(out@);
        match self.find_tag_u32(0x9207) {
            Some(v) => {
                push_row(&mut out, "MeteringMode", SummaryValue::Text(text_of(metering_mode_name(v))));
            },
            None => {},
        }
        assert(rows_view(out@) =~= a9 + named_row(iv, "MeteringMode"@, 0x9207, |v: u32| metering_mode_label(v)));
        self.text_rows_into(&mut out, "BodySerialNumber", 0xA431);
        self.text_rows_into(&mut out, "CameraSerialNumber", 0xC62F);
        assert(rows_view(out@) =~= capture_rows(iv));
        out
    }

    fn makernote_rows_vec(&self) -> (r: Vec<(String, SummaryValue)>)
        ensures
            rows_view(r@) == makernotes_rows(ifds_view(self.ifds@), self.ifds@.len() as int),
    {
        let ghost iv = ifds_view(self.ifds@);
        let mut out: Vec<(String, SummaryValue)> = Vec::new();
        let mut i: usize = 0;
        assert(rows_view(out@) =~= Seq::<Row>::empty());
        while i < self.ifds.len()
            invariant
                i <= self.ifds@.len(),
                iv == ifds_view(self.ifds@),
                rows_view(out@) == makernotes_rows(iv, i as int),
            decreases self.ifds@.len() - i,
        {
            assert(iv[i as int] == self.ifds@[i as int]@);
            let ghost before = rows_view(out@);
            let ifd = &self.ifds[i];
            if crate::text::str_equals(ifd.name.as_str(), "MakerNote") {
                let ghost b0 = rows_view(out@);
                match ifd.get_u32(0x0005) {
                    Some(v) => {
                        push_row(&mut out, "WhiteBalance", SummaryValue::Text(text_of(white_balance_name(v))));
                    },
                    None => {},
                }
                let ghost b1 = rows_view(out@);
                match ifd.get_string(0x0028) {
                    Some(s) => {
                        push_row(&mut out, "PhocusVersion", SummaryValue::Text(s));
                    },
                    None => {},
                }
                assert(rows_view(out@) =~= before + makernote_rows(iv[i as int]));
            } else {
                assert(rows_view(out@) =~= before + Seq::<Row>::empty());
            }
            i = i + 1;
        }
        out
    }

    /// The summary rows of the file: format, byte order, size and IFD
    /// count; the image's identity, dimensions and thumbnail; its coding
    /// and capture settings; and the white balance and Phocus version of
    /// each MakerNote IFD (see `summary_rows`).
    pub fn metadata_summary(&self) -> (r: Vec<(String, SummaryValue)>)
        ensures
            rows_view(r@) == summary_rows(self.magic, self.byte_order, self.data@.len(), ifds_view(self.ifds@)),
    {
        let ghost iv = ifds_view(self.ifds@);
        let mut out: Vec<(String, SummaryValue)> = Vec::new();
        let fmt = if self.magic == 0x55 {
            text_of("Imacon FFF (3F)")
        } else {
            text_of("TIFF-based FFF")
        };
        push_row(&mut out, "Format", SummaryValue::Text(fmt));
        let bo = match self.byte_order {
            ByteOrder::LittleEndian => text_of("Little-Endian (Intel)"),
            ByteOrder::BigEndian => text_of("Big-Endian (Motorola)"),
        };
        push_row(&mut out, "Byte Order", SummaryValue::Text(bo));
        push_row(&mut out, "File Size", SummaryValue::FileSize(self.data.len()));
        push_row(&mut out, "IFD Count", SummaryValue::Text(u64_decimal(self.ifds.len() as u64)));
        assert(rows_view(out@) =~= file_rows(self.magic, self.byte_order, self.data@.len(), iv.len()));
        let ghost a = rows_view(out@);
        let mut b = self.image_rows_vec();
        let ghost bv = rows_view(b@);
        out.append(&mut b);
        assert(rows_view(out@) =~= a + bv);
        let ghost a2 = rows_view(out@);
        let mut c = self.capture_rows_vec();
        let ghost cv = rows_view(c@);
        out.append(&mut c);
        assert(rows_view(out@) =~= a2 + cv);
        let ghost a3 = rows_view(out@);
        let mut m = self.makernote_rows_vec();
        let ghost mv = rows_view(m@);
        out.append(&mut m);
        assert(rows_view(out@) =~= a3 + mv);
        out
    }
}

} // verus!
