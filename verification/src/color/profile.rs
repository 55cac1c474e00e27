//! Metadata of ICC profiles, read from their bytes.
use vstd::prelude::*;
use vstd::utf8::{decode_utf8, valid_utf8};

use crate::text::{
    append_str, bytes_match_at, chars_of, decimal, occurs_at, push_char, str_equals, string_from_chars,
    string_from_utf8, trim, u64_decimal, zero_padded, zero_padded_string,
};
use crate::config::trimmed_chars;
use crate::tiff::{copy_bytes, i32_of, read_u16_at, read_u32_at, spec_i32_of, spec_u16_at, spec_u32_at, ByteOrder};

verus! {

/// Metadata of an ICC profile.
#[derive(Debug, Clone)]
pub struct IccProfileDetail {
    /// Declared profile size in bytes.
    pub size: u32,
    /// Version `major.minor.bugfix`.
    pub version: String,
    /// Device class signature (`scnr`, `mntr`, `prtr`, `link`, `spac`, `abst`, `nmcl`).
    pub device_class: String,
    /// Readable name of the device class.
    pub device_class_name: String,
    /// Colour space signature (`RGB`, `CMYK`, `GRAY`, `Lab`, ...).
    pub color_space: String,
    /// Profile connection space signature (`XYZ` or `Lab`).
    pub pcs: String,
    /// Profile description.
    pub description: String,
    /// Creation date and time, `YYYY-MM-DD hh:mm:ss`.
    pub date_time: String,
    /// Preferred colour management module signature.
    pub cmm_type: String,
    /// Rendering intent name.
    pub rendering_intent: String,
    /// PCS illuminant X as an s15Fixed16 number (value times 65536).
    pub illuminant_x: i32,
    /// PCS illuminant Y as an s15Fixed16 number.
    pub illuminant_y: i32,
    /// PCS illuminant Z as an s15Fixed16 number.
    pub illuminant_z: i32,
    /// Manufacturer signature.
    pub manufacturer: String,
    /// Device model signature.
    pub model: String,
    /// Number of tags declared.
    pub tag_count: u32,
    /// The tag table entries that fit in the data: (signature, offset, size).
    pub tags: Vec<(String, u32, u32)>,
}

/// Big-endian 32-bit value at `p`.
pub open spec fn be32(d: Seq<u8>, p: int) -> u32 {
    spec_u32_at(d, p, ByteOrder::BigEndian)
}

/// A four-byte signature at `p` as text: its UTF-8 characters trimmed, or
/// `????` when they are not UTF-8.
pub open spec fn sig_text(d: Seq<u8>, p: int) -> Seq<char> {
    let b = d.subrange(p, p + 4);
    if valid_utf8(b) {
        trim(decode_utf8(b))
    } else {
        "????"@
    }
}

/// The readable name of a device class signature.
pub open spec fn class_name(s: Seq<char>) -> Seq<char> {
    if s == "scnr"@ {
        "Scanner"@
    } else if s == "mntr"@ {
        "Monitor"@
    } else if s == "prtr"@ {
        "Printer"@
    } else if s == "link"@ {
        "Device Link"@
    } else if s == "spac"@ {
        "Color Space"@
    } else if s == "abst"@ {
        "Abstract"@
    } else if s == "nmcl"@ {
        "Named Color"@
    } else {
        "Unknown"@
    }
}

/// The name of a rendering intent value.
pub open spec fn intent_name(v: u32) -> Seq<char> {
    if v == 0 {
        "Perceptual"@
    } else if v == 1 {
        "Relative Colorimetric"@
    } else if v == 2 {
        "Saturation"@
    } else if v == 3 {
        "Absolute Colorimetric"@
    } else {
        "Unknown"@
    }
}

/// `major.minor.bugfix` from the version bytes.
pub open spec fn version_text(d: Seq<u8>) -> Seq<char> {
    decimal(d[8] as nat) + seq!['.'] + decimal((d[9] / 16) as nat) + seq!['.'] + decimal((d[9] % 16) as nat)
}

/// Big-endian 16-bit value at `p`, as an integer.
pub open spec fn be16(d: Seq<u8>, p: int) -> int {
    spec_u16_at(d, p, ByteOrder::BigEndian) as int
}

/// `YYYY-MM-DD hh:mm:ss` from the six date numbers at bytes 24 to 35.
pub open spec fn date_text(d: Seq<u8>) -> Seq<char> {
    zero_padded(be16(d, 24), 4) + seq!['-'] + zero_padded(be16(d, 26), 2) + seq!['-'] + zero_padded(be16(d, 28), 2)
        + seq![' '] + zero_padded(be16(d, 30), 2) + seq![':'] + zero_padded(be16(d, 32), 2) + seq![':'] + zero_padded(
        be16(d, 34),
        2,
    )
}

/// The number of tag table entries that are read: the declared count, or
/// fewer when the data ends first.
pub open spec fn tags_read(d: Seq<u8>) -> int {
    let room = (d.len() - 132) / 12;
    if (be32(d, 128) as int) < room {
        be32(d, 128) as int
    } else {
        room
    }
}

/// The tag table entry `i`: signature, offset and size.
pub open spec fn tag_entry(d: Seq<u8>, i: int) -> (Seq<char>, u32, u32) {
    (sig_text(d, 132 + 12 * i), be32(d, 136 + 12 * i), be32(d, 140 + 12 * i))
}

/// `desc` as bytes.
pub open spec fn desc_sig() -> Seq<u8> {
    seq![100u8, 101u8, 115u8, 99u8]
}

/// `mluc` as bytes.
pub open spec fn mluc_sig() -> Seq<u8> {
    seq![109u8, 108u8, 117u8, 99u8]
}

/// The characters that UTF-16 code units encode, when they are valid UTF-16
/// (every high surrogate followed by a low one, no lone low surrogate).
pub open spec fn utf16_text(u: Seq<u16>) -> Option<Seq<char>>
    decreases u.len(),
{
    if u.len() == 0 {
        Some(seq![])
    } else if u[0] < 0xD800 || u[0] > 0xDFFF {
        match utf16_text(u.skip(1)) {
            Some(rest) => Some(seq![(u[0] as u32) as char] + rest),
            None => None,
        }
    } else if u[0] <= 0xDBFF && u.len() >= 2 && 0xDC00 <= u[1] <= 0xDFFF {
        let cp = 0x10000 + (u[0] - 0xD800) * 0x400 + (u[1] - 0xDC00);
        match utf16_text(u.skip(2)) {
            Some(rest) => Some(seq![(cp as u32) as char] + rest),
            None => None,
        }
    } else {
        None
    }
}

/// The big-endian 16-bit units of `n` bytes from `p` (a trailing odd byte
/// is left out).
pub open spec fn be16_units(d: Seq<u8>, p: int, n: int) -> Seq<u16> {
    Seq::new((n / 2) as nat, |k: int| spec_u16_at(d, p + 2 * k, ByteOrder::BigEndian))
}

/// The first string of a multi-localized Unicode element.
pub open spec fn mluc_text(d: Seq<u8>) -> Option<Seq<char>> {
    if d.len() < 28 {
        None
    } else {
        let len = be32(d, 20) as int;
        let off = be32(d, 24) as int;
        if off + len <= d.len() && len >= 2 {
            utf16_text(be16_units(d, off, len))
        } else {
            None
        }
    }
}

/// What a tag table entry at `base` gives for the description: `None` to
/// go on with the next entry, or the answer (which may be no description).
pub open spec fn desc_entry(d: Seq<u8>, base: int) -> Option<Option<Seq<char>>> {
    let off = be32(d, base + 4) as int;
    let size = be32(d, base + 8) as int;
    if occurs_at(d, desc_sig(), base) && off + size <= d.len() && size > 12 {
        if occurs_at(d, desc_sig(), off) {
            let n = be32(d, off + 8) as int;
            if n > 0 && off + 12 + n <= d.len() {
                let b = d.subrange(off + 12, off + 12 + n - 1);
                Some(if valid_utf8(b) { Some(decode_utf8(b)) } else { None })
            } else {
                None
            }
        } else if occurs_at(d, mluc_sig(), off) {
            Some(mluc_text(d.subrange(off, off + size)))
        } else {
            None
        }
    } else {
        None
    }
}

/// The description from the tag table entries `i` on.
pub open spec fn desc_from(d: Seq<u8>, i: int) -> Option<Seq<char>>
    decreases tags_read(d) - i,
{
    if i < 0 || i >= tags_read(d) {
        None
    } else {
        match desc_entry(d, 132 + 12 * i) {
            Some(r) => r,
            None => desc_from(d, i + 1),
        }
    }
}

/// The profile description: that of the first usable `desc` tag, or empty.
pub open spec fn description_text(d: Seq<u8>) -> Seq<char> {
    match desc_from(d, 0) {
        Some(s) => s,
        None => seq![],
    }
}

/// The metadata that `parse_icc_detail` reads from the bytes of a profile
/// of at least 132 bytes.
pub open spec fn detail_read(p: IccProfileDetail, d: Seq<u8>) -> bool {
    &&& p.size == be32(d, 0)
    &&& p.cmm_type@ == sig_text(d, 4)
    &&& p.version@ == version_text(d)
    &&& p.device_class@ == sig_text(d, 12)
    &&& p.device_class_name@ == class_name(sig_text(d, 12))
    &&& p.color_space@ == sig_text(d, 16)
    &&& p.pcs@ == sig_text(d, 20)
    &&& p.date_time@ == date_text(d)
    &&& p.rendering_intent@ == intent_name(be32(d, 64))
    &&& p.illuminant_x == spec_i32_of(be32(d, 68))
    &&& p.illuminant_y == spec_i32_of(be32(d, 72))
    &&& p.illuminant_z == spec_i32_of(be32(d, 76))
    &&& p.manufacturer@ == sig_text(d, 48)
    &&& p.model@ == sig_text(d, 52)
    &&& p.description@ == description_text(d)
    &&& p.tag_count == be32(d, 128)
    &&& p.tags@.len() == tags_read(d)
    &&& forall|i: int|
        0 <= i < p.tags@.len() ==> ((#[trigger] p.tags@[i]).0@, p.tags@[i].1, p.tags@[i].2) == tag_entry(d, i)
}

/// Big-endian bytes `p..p+4` weighted 2^24, 2^16, 2^8, 1.
pub open spec fn be_bytes_value(d: Seq<u8>, p: int) -> int {
    0x1000000 * d[p] + 0x10000 * d[p + 1] + 0x100 * d[p + 2] + d[p + 3]
}

/// The numbers of a profile header are read most significant byte first:
/// the size from bytes 0..4, the tag count from 128..132, each tag's offset
/// and size from its entry, and the illuminant as a signed value of bytes
/// 68..80 (negative when its first byte is 128 or more).
pub proof fn lemma_detail_numbers(p: IccProfileDetail, d: Seq<u8>)
    requires
        d.len() >= 132,
        detail_read(p, d),
    ensures
        p.size == be_bytes_value(d, 0),
        p.tag_count == be_bytes_value(d, 128),
        d[68] < 128 ==> p.illuminant_x == be_bytes_value(d, 68),
        d[68] >= 128 ==> p.illuminant_x == be_bytes_value(d, 68) - 0x1_0000_0000,
        d[72] < 128 ==> p.illuminant_y == be_bytes_value(d, 72),
        d[72] >= 128 ==> p.illuminant_y == be_bytes_value(d, 72) - 0x1_0000_0000,
        d[76] < 128 ==> p.illuminant_z == be_bytes_value(d, 76),
        d[76] >= 128 ==> p.illuminant_z == be_bytes_value(d, 76) - 0x1_0000_0000,
        forall|i: int|
            0 <= i < p.tags@.len() ==> #[trigger] p.tags@[i].1 == be_bytes_value(d, 136 + 12 * i) && p.tags@[i].2
                == be_bytes_value(d, 140 + 12 * i),
{
    crate::tiff::lemma_u32_bytes(d, 0);
    crate::tiff::lemma_u32_bytes(d, 128);
    crate::tiff::lemma_u32_bytes(d, 68);
    crate::tiff::lemma_u32_bytes(d, 72);
    crate::tiff::lemma_u32_bytes(d, 76);
    assert forall|i: int| 0 <= i < p.tags@.len() implies #[trigger] p.tags@[i].1 == be_bytes_value(d, 136 + 12 * i)
        && p.tags@[i].2 == be_bytes_value(d, 140 + 12 * i) by {
        assert(((p.tags@[i]).0@, p.tags@[i].1, p.tags@[i].2) == tag_entry(d, i));
        assert(i < tags_read(d));
        assert(140 + 12 * i + 4 <= d.len());
        crate::tiff::lemma_u32_bytes(d, 136 + 12 * i);
        crate::tiff::lemma_u32_bytes(d, 140 + 12 * i);
    }
}

/// std's `String::from_utf16`: decodes UTF-16 code units, and fails on an
/// unpaired surrogate.
#[verifier::external_body]
fn string_from_utf16(units: &[u16]) -> (r: Option<String>)
    ensures
        match r {
            Some(s) => utf16_text(units@) == Some(s@),
            None => utf16_text(units@) is None,
        },
{
    String::from_utf16(units).ok()
}

fn text_of(t: &str) -> (s: String)
    ensures
        s@ == t@,
{
    let mut s = String::new();
    append_str(&mut s, t);
    assert(s@ =~= t@);
    s
}

/// The signature at `p` as text.
fn sig_at(d: &[u8], p: usize) -> (s: String)
    requires
        p + 4 <= d@.len(),
    ensures
        s@ == sig_text(d@, p as int),
{
    let n = d.len();
    assert(p + 4 <= n);
    let b = copy_bytes(d, p, p + 4);
    match string_from_utf8(b.as_slice()) {
        Some(t) => {
            let v = chars_of(t.as_str());
            let w = trimmed_chars(v.as_slice(), 0, v.len());
            assert(v@.subrange(0, v@.len() as int) =~= v@);
            assert(w@.subrange(0, w@.len() as int) =~= w@);
            string_from_chars(w.as_slice(), 0, w.len())
        },
        None => text_of("????"),
    }
}

fn class_name_of(s: &String) -> (r: String)
    ensures
        r@ == class_name(s@),
{
    let t = s.as_str();
    if str_equals(t, "scnr") {
        text_of("Scanner")
    } else if str_equals(t, "mntr") {
        text_of("Monitor")
    } else if str_equals(t, "prtr") {
        text_of("Printer")
    } else if str_equals(t, "link") {
        text_of("Device Link")
    } else if str_equals(t, "spac") {
        text_of("Color Space")
    } else if str_equals(t, "abst") {
        text_of("Abstract")
    } else if str_equals(t, "nmcl") {
        text_of("Named Color")
    } else {
        text_of("Unknown")
    }
}

fn intent_name_of(v: u32) -> (r: String)
    ensures
        r@ == intent_name(v),
{
    if v == 0 {
        text_of("Perceptual")
    } else if v == 1 {
        text_of("Relative Colorimetric")
    } else if v == 2 {
        text_of("Saturation")
    } else if v == 3 {
        text_of("Absolute Colorimetric")
    } else {
        text_of("Unknown")
    }
}

fn version_of(d: &[u8]) -> (s: String)
    requires
        d@.len() >= 10,
    ensures
        s@ == version_text(d@),
{
    let mut s = u64_decimal(d[8] as u64);
    push_char(&mut s, '.');
    let minor = u64_decimal((d[9] / 16) as u64);
    append_str(&mut s, minor.as_str());
    push_char(&mut s, '.');
    let fix = u64_decimal((d[9] % 16) as u64);
    append_str(&mut s, fix.as_str());
    assert(s@ =~= version_text(d@));
    s
}

fn date_of(d: &[u8]) -> (s: String)
    requires
        d@.len() >= 36,
    ensures
        s@ == date_text(d@),
{
    let mut s = zero_padded_string(read_u16_at(d, 24, ByteOrder::BigEndian) as i64, 4);
    push_char(&mut s, '-');
    let t = zero_padded_string(read_u16_at(d, 26, ByteOrder::BigEndian) as i64, 2);
    append_str(&mut s, t.as_str());
    push_char(&mut s, '-');
    let t = zero_padded_string(read_u16_at(d, 28, ByteOrder::BigEndian) as i64, 2);
    append_str(&mut s, t.as_str());
    push_char(&mut s, ' ');
    let t = zero_padded_string(read_u16_at(d, 30, ByteOrder::BigEndian) as i64, 2);
    append_str(&mut s, t.as_str());
    push_char(&mut s, ':');
    let t = zero_padded_string(read_u16_at(d, 32, ByteOrder::BigEndian) as i64, 2);
    append_str(&mut s, t.as_str());
    push_char(&mut s, ':');
    let t = zero_padded_string(read_u16_at(d, 34, ByteOrder::BigEndian) as i64, 2);
    append_str(&mut s, t.as_str());
    assert(s@ =~= date_text(d@));
    s
}

proof fn lemma_room(len: int, i: int)
    requires
        len >= 132,
        0 <= i,
    ensures
        (i < (len - 132) / 12) == (132 + 12 * i + 12 <= len),
{
    assert((i < (len - 132) / 12) == (132 + 12 * i + 12 <= len)) by (nonlinear_arith)
        requires
            len >= 132,
            0 <= i,
    ;
}

/// The first string of a multi-localized Unicode element.
fn mluc_string(d: &[u8]) -> (r: Option<String>)
    ensures
        match r {
            Some(s) => mluc_text(d@) == Some(s@),
            None => mluc_text(d@) is None,
        },
{
    if d.len() < 28 {
        return None;
    }
    let len = read_u32_at(d, 20, ByteOrder::BigEndian) as u64;
    let off = read_u32_at(d, 24, ByteOrder::BigEndian) as u64;
    if off + len <= d.len() as u64 && len >= 2 {
        let off = off as usize;
        let len = len as usize;
        let mut units: Vec<u16> = Vec::new();
        let mut k: usize = 0;
        while k < len / 2
            invariant
                k <= len / 2,
                off + len <= d@.len(),
                units@ =~= be16_units(d@, off as int, len as int).take(k as int),
            decreases len / 2 - k,
        {
            let dl = d.len();
            assert(off + 2 * k + 2 <= dl);
            units.push(read_u16_at(d, off + 2 * k, ByteOrder::BigEndian));
            k = k + 1;
        }
        assert(be16_units(d@, off as int, len as int).take(k as int) =~= be16_units(d@, off as int, len as int));
        string_from_utf16(units.as_slice())
    } else {
        None
    }
}

/// What the tag table entry at `base` gives for the description.
fn desc_entry_at(d: &[u8], base: usize) -> (r: Option<Option<String>>)
    requires
        base + 12 <= d@.len(),
    ensures
        match r {
            None => desc_entry(d@, base as int) is None,
            Some(None) => desc_entry(d@, base as int) == Some(None::<Seq<char>>),
            Some(Some(s)) => desc_entry(d@, base as int) == Some(Some(s@)),
        },
{
    let desc: [u8; 4] = [100u8, 101u8, 115u8, 99u8];
    let mluc: [u8; 4] = [109u8, 108u8, 117u8, 99u8];
    assert(desc@ == desc_sig());
    assert(mluc@ == mluc_sig());
    let dl = d.len();
    assert(base + 12 <= dl);
    let off = read_u32_at(d, base + 4, ByteOrder::BigEndian) as u64;
    let size = read_u32_at(d, base + 8, ByteOrder::BigEndian) as u64;
    let n = d.len() as u64;
    if bytes_match_at(d, desc.as_slice(), base) && off + size <= n && size > 12 {
        let o = off as usize;
        if bytes_match_at(d, desc.as_slice(), o) {
            let cnt = read_u32_at(d, o + 8, ByteOrder::BigEndian) as u64;
            if cnt > 0 && off + 12 + cnt <= n {
                let b = copy_bytes(d, o + 12, o + 12 + cnt as usize - 1);
                match string_from_utf8(b.as_slice()) {
                    Some(s) => Some(Some(s)),
                    None => Some(None),
                }
            } else {
                None
            }
        } else if bytes_match_at(d, mluc.as_slice(), o) {
            let e = copy_bytes(d, o, o + size as usize);
            Some(mluc_string(e.as_slice()))
        } else {
            None
        }
    } else {
        None
    }
}

/// The profile description from the tag table.
fn description_of(d: &[u8]) -> (r: Option<String>)
    requires
        d@.len() >= 132,
    ensures
        match r {
            Some(s) => desc_from(d@, 0) == Some(s@),
            None => desc_from(d@, 0) is None,
        },
{
    let count = read_u32_at(d, 128, ByteOrder::BigEndian) as u64;
    let mut i: u64 = 0;
    while i < count
        invariant
            d@.len() >= 132,
            count == be32(d@, 128),
            i <= count,
            132 + 12 * i <= d@.len() + 12,
            desc_from(d@, 0) == desc_from(d@, i as int),
        decreases count - i,
    {
        let base = 132 + 12 * i;
        proof {
            lemma_room(d@.len() as int, i as int);
        }
        if base + 12 > d.len() as u64 {
            assert(desc_from(d@, i as int) is None);
            return None;
        }
        match desc_entry_at(d, base as usize) {
            Some(r) => {
                return r;
            },
            None => {},
        }
        i = i + 1;
    }
    proof {
        lemma_room(d@.len() as int, i as int);
    }
    None
}

/// Reads the metadata of an ICC profile: `None` when the data is shorter
/// than the header and tag count (132 bytes).
pub fn parse_icc_detail(data: &[u8]) -> (r: Option<IccProfileDetail>)
    ensures
        r is None <==> data@.len() < 132,
        r matches Some(p) ==> detail_read(p, data@),
{
    if data.len() < 132 {
        return None;
    }
    let device_class = sig_at(data, 12);
    let device_class_name = class_name_of(&device_class);
    let description = match description_of(data) {
        Some(s) => s,
        None => String::new(),
    };
    let tag_count = read_u32_at(data, 128, ByteOrder::BigEndian);
    let mut tags: Vec<(String, u32, u32)> = Vec::new();
    let mut i: u64 = 0;
    while i < tag_count as u64
        invariant
            data@.len() >= 132,
            tag_count == be32(data@, 128),
            i <= tag_count,
            132 + 12 * i <= data@.len() + 12,
            i <= tags_read(data@),
            tags@.len() == i,
            forall|k: int|
                0 <= k < i ==> ((#[trigger] tags@[k]).0@, tags@[k].1, tags@[k].2) == tag_entry(data@, k),
        ensures
            tags@.len() == tags_read(data@),
            forall|k: int|
                0 <= k < tags@.len() ==> ((#[trigger] tags@[k]).0@, tags@[k].1, tags@[k].2) == tag_entry(data@, k),
        decreases tag_count - i,
    {
        let base = 132 + 12 * i;
        proof {
            lemma_room(data@.len() as int, i as int);
        }
        if base + 12 > data.len() as u64 {
            assert(tags@.len() == tags_read(data@));
            break;
        }
        let b = base as usize;
        let sig = sig_at(data, b);
        let off = read_u32_at(data, b + 4, ByteOrder::BigEndian);
        let size = read_u32_at(data, b + 8, ByteOrder::BigEndian);
        tags.push((sig, off, size));
        i = i + 1;
    }
    Some(IccProfileDetail {
        size: read_u32_at(data, 0, ByteOrder::BigEndian),
        version: version_of(data),
        device_class,
        device_class_name,
        color_space: sig_at(data, 16),
        pcs: sig_at(data, 20),
        description,
        date_time: date_of(data),
        cmm_type: sig_at(data, 4),
        rendering_intent: intent_name_of(read_u32_at(data, 64, ByteOrder::BigEndian)),
        illuminant_x: i32_of(read_u32_at(data, 68, ByteOrder::BigEndian)),
        illuminant_y: i32_of(read_u32_at(data, 72, ByteOrder::BigEndian)),
        illuminant_z: i32_of(read_u32_at(data, 76, ByteOrder::BigEndian)),
        manufacturer: sig_at(data, 48),
        model: sig_at(data, 52),
        tag_count,
        tags,
    })
}

} // verus!
