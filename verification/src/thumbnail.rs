//! Reading a reduced-resolution image without loading the whole file.
//!
//! The caller reads the file piece by piece: the eight header bytes, then
//! for each IFD of the main chain its entry count and entries, then the
//! values of the few entries that lie elsewhere, and finally the strips of
//! the chosen IFD. The decisions between those reads are made here: what the
//! header says, what an IFD's entries hold, when the chain walk stops, which
//! IFD is chosen, and how its strip bytes become an image.

use vstd::prelude::*;
use crate::tiff::{
    ByteOrder, PixelData, PixelDataV, RgbPixels, RgbPixelsV, copy_bytes, mul_u32, read_u16_at,
    read_u16s, read_u32_at, read_u32s, spec_u16_at, spec_u32_at,
};

verus! {

/// Why the first eight bytes do not start a TIFF/FFF file.
#[derive(Debug, Clone, Copy, PartialEq, Eq)]
pub enum HeaderError {
    /// Neither "II" nor "MM".
    InvalidByteOrder,
    /// The magic number is neither 0x2A (TIFF) nor 0x55 (FFF).
    NotTiff,
}

/// The header's byte order and first IFD offset.
pub open spec fn spec_thumbnail_header(h: Seq<u8>) -> Result<(ByteOrder, u32), HeaderError> {
    let bo = if h[0] == 0x49 && h[1] == 0x49 {
        Some(ByteOrder::LittleEndian)
    } else if h[0] == 0x4D && h[1] == 0x4D {
        Some(ByteOrder::BigEndian)
    } else {
        None
    };
    match bo {
        None => Err(HeaderError::InvalidByteOrder),
        Some(bo) => {
            let magic = spec_u16_at(h, 2, bo);
            if magic != 0x2A && magic != 0x55 { Err(HeaderError::NotTiff) } else { Ok((bo, spec_u32_at(h, 4, bo))) }
        },
    }
}

/// Reads the eight header bytes: byte order, magic number, first IFD offset.
pub fn parse_thumbnail_header(h: &[u8]) -> (r: Result<(ByteOrder, u32), HeaderError>)
    requires
        h@.len() >= 8,
    ensures
        r == spec_thumbnail_header(h@),
{
    let bo = if h[0] == 0x49 && h[1] == 0x49 {
        ByteOrder::LittleEndian
    } else if h[0] == 0x4D && h[1] == 0x4D {
        ByteOrder::BigEndian
    } else {
        return Err(HeaderError::InvalidByteOrder);
    };
    let magic = read_u16_at(h, 2, bo);
    if magic != 0x2A && magic != 0x55 {
        return Err(HeaderError::NotTiff);
    }
    Ok((bo, read_u32_at(h, 4, bo)))
}

/// The walk of the IFD chain goes on at `offset` after `seen` IFDs: the
/// offset is not 0, lies inside the file, and fewer than 20 IFDs were read.
pub fn chain_continues(offset: u32, file_len: u64, seen: usize) -> (r: bool)
    ensures
        r == (offset != 0 && (offset as int) < file_len && seen < 20),
{
    offset != 0 && (offset as u64) < file_len && seen < 20
}

/// An IFD with more than 1000 entries ends the walk.
pub fn entry_count_accepted(n: u16) -> (r: bool)
    ensures
        r == (n <= 1000),
{
    n <= 1000
}

/// What the reader keeps of an IFD.
#[derive(Debug, Clone)]
pub struct LightIfd {
    pub width: u32,
    pub height: u32,
    pub bps: u32,
    pub compression: u32,
    pub photometric: u32,
    pub spp: u32,
    pub subfile_type: u32,
    pub strip_offsets: Vec<u32>,
    pub strip_byte_counts: Vec<u32>,
}

/// Model of `LightIfd`.
pub struct LightIfdV {
    pub width: u32,
    pub height: u32,
    pub bps: u32,
    pub compression: u32,
    pub photometric: u32,
    pub spp: u32,
    pub subfile_type: u32,
    pub strip_offsets: Seq<u32>,
    pub strip_byte_counts: Seq<u32>,
}

impl View for LightIfd {
    type V = LightIfdV;

    open spec fn view(&self) -> LightIfdV {
        LightIfdV {
            width: self.width,
            height: self.height,
            bps: self.bps,
            compression: self.compression,
            photometric: self.photometric,
            spp: self.spp,
            subfile_type: self.subfile_type,
            strip_offsets: self.strip_offsets@,
            strip_byte_counts: self.strip_byte_counts@,
        }
    }
}

/// Entry values that lie elsewhere in the file: the offset of the first
/// BitsPerSample value, and (offset, count) of each strip list.
#[derive(Debug, Clone, Copy, PartialEq, Eq)]
pub struct LightRefs {
    pub bps_at: Option<u32>,
    pub offsets_at: Option<(u32, u32)>,
    pub counts_at: Option<(u32, u32)>,
}

/// Values before any entry is read: 8 bits, no compression, one sample.
pub open spec fn light_default() -> (LightIfdV, LightRefs) {
    (LightIfdV {
        width: 0,
        height: 0,
        bps: 8,
        compression: 1,
        photometric: 0,
        spp: 1,
        subfile_type: 0,
        strip_offsets: seq![],
        strip_byte_counts: seq![],
    }, LightRefs { bps_at: None, offsets_at: None, counts_at: None })
}

/// A SHORT entry's value is its first two value bytes; any other type's is
/// the whole four-byte field.
pub open spec fn short_or_long(typ: u16, value: u32, short: u16) -> u32 {
    if typ == 3 { short as u32 } else { value }
}

/// The effect of one entry (tag, type, count, value field, value field read
/// as SHORT); entries of other tags change nothing.
pub open spec fn light_apply(st: (LightIfdV, LightRefs), tag: u16, typ: u16, count: u32, value: u32, short: u16) -> (LightIfdV, LightRefs) {
    let (l, r) = st;
    if tag == 0x00FE {
        (LightIfdV { subfile_type: value, ..l }, r)
    } else if tag == 0x0100 {
        (LightIfdV { width: short_or_long(typ, value, short), ..l }, r)
    } else if tag == 0x0101 {
        (LightIfdV { height: short_or_long(typ, value, short), ..l }, r)
    } else if tag == 0x0102 {
        if count == 1 { (LightIfdV { bps: short as u32, ..l }, r) } else { (l, LightRefs { bps_at: Some(value), ..r }) }
    } else if tag == 0x0103 {
        (LightIfdV { compression: short_or_long(typ, value, short), ..l }, r)
    } else if tag == 0x0106 {
        (LightIfdV { photometric: short_or_long(typ, value, short), ..l }, r)
    } else if tag == 0x0111 {
        if count == 1 {
            (LightIfdV { strip_offsets: seq![value], ..l }, r)
        } else {
            (l, LightRefs { offsets_at: Some((value, count)), ..r })
        }
    } else if tag == 0x0115 {
        (LightIfdV { spp: short_or_long(typ, value, short), ..l }, r)
    } else if tag == 0x0117 {
        if count == 1 {
            (LightIfdV { strip_byte_counts: seq![value], ..l }, r)
        } else {
            (l, LightRefs { counts_at: Some((value, count)), ..r })
        }
    } else {
        st
    }
}

/// The first `n` twelve-byte entries of `buf`, applied in order.
pub open spec fn light_scan(buf: Seq<u8>, bo: ByteOrder, n: nat) -> (LightIfdV, LightRefs)
    decreases n,
{
    if n == 0 {
        light_default()
    } else {
        let e = 12 * (n - 1);
        light_apply(light_scan(buf, bo, (n - 1) as nat), spec_u16_at(buf, e, bo), spec_u16_at(buf, e + 2, bo),
            spec_u32_at(buf, e + 4, bo), spec_u32_at(buf, e + 8, bo), spec_u16_at(buf, e + 8, bo))
    }
}

/// Reads an IFD's `n` entries and the offset of the next IFD that follows
/// them.
pub fn parse_light_entries(buf: &[u8], n: usize, bo: ByteOrder) -> (r: (LightIfd, LightRefs, u32))
    requires
        12 * n + 4 <= buf@.len(),
    ensures
        r.0@ == light_scan(buf@, bo, n as nat).0,
        r.1 == light_scan(buf@, bo, n as nat).1,
        r.2 == spec_u32_at(buf@, 12 * n, bo),
{
    let mut l = LightIfd {
        width: 0,
        height: 0,
        bps: 8,
        compression: 1,
        photometric: 0,
        spp: 1,
        subfile_type: 0,
        strip_offsets: Vec::new(),
        strip_byte_counts: Vec::new(),
    };
    let mut refs = LightRefs { bps_at: None, offsets_at: None, counts_at: None };
    let mut i: usize = 0;
    assert(buf@.len() == buf.len());
    proof {
        assert(l@.strip_offsets =~= seq![]);
        assert(l@.strip_byte_counts =~= seq![]);
    }
    while i < n
        invariant
            i <= n,
            12 * n + 4 <= buf@.len(),
            buf@.len() == buf.len(),
            l@ == light_scan(buf@, bo, i as nat).0,
            refs == light_scan(buf@, bo, i as nat).1,
        decreases n - i,
    {
        let e = 12 * i;
        let tag = read_u16_at(buf, e, bo);
        let typ = read_u16_at(buf, e + 2, bo);
        let count = read_u32_at(buf, e + 4, bo);
        let value = read_u32_at(buf, e + 8, bo);
        let short = read_u16_at(buf, e + 8, bo);
        let sl = if typ == 3 { short as u32 } else { value };
        if tag == 0x00FE {
            l.subfile_type = value;
        } else if tag == 0x0100 {
            l.width = sl;
        } else if tag == 0x0101 {
            l.height = sl;
        } else if tag == 0x0102 {
            if count == 1 { l.bps = short as u32; } else { refs.bps_at = Some(value); }
        } else if tag == 0x0103 {
            l.compression = sl;
        } else if tag == 0x0106 {
            l.photometric = sl;
        } else if tag == 0x0111 {
            if count == 1 {
                l.strip_offsets = vec![value];
                assert(l.strip_offsets@ =~= seq![value]);
            } else {
                refs.offsets_at = Some((value, count));
            }
        } else if tag == 0x0115 {
            l.spp = sl;
        } else if tag == 0x0117 {
            if count == 1 {
                l.strip_byte_counts = vec![value];
                assert(l.strip_byte_counts@ =~= seq![value]);
            } else {
                refs.counts_at = Some((value, count));
            }
        }
        i = i + 1;
    }
    let next = read_u32_at(buf, 12 * n, bo);
    (l, refs, next)
}

/// Number of values read of a strip list stored elsewhere: at most 65536.
pub open spec fn spec_list_len(count: u32) -> nat {
    if count < 65536 { count as nat } else { 65536 }
}

/// Number of bytes to read for a strip list of `count` values stored
/// elsewhere.
pub fn list_read_len(count: u32) -> (r: usize)
    ensures
        r == 4 * spec_list_len(count),
{
    if count < 65536 { 4 * count as usize } else { 4 * 65536 }
}

/// Fills in the values read from elsewhere: the first BitsPerSample value
/// from `bps_bytes`, and each strip list from its bytes (as many values as
/// `list_read_len` asked for). Lists whose bytes are not given stay as they
/// are.
pub fn resolve_light_refs(
    l: LightIfd,
    bo: ByteOrder,
    bps_bytes: Option<Vec<u8>>,
    offsets_bytes: Option<Vec<u8>>,
    counts_bytes: Option<Vec<u8>>,
    offsets_count: u32,
    counts_count: u32,
) -> (r: LightIfd)
    requires
        bps_bytes matches Some(b) ==> b@.len() >= 2,
        offsets_bytes matches Some(b) ==> b@.len() >= 4 * spec_list_len(offsets_count),
        counts_bytes matches Some(b) ==> b@.len() >= 4 * spec_list_len(counts_count),
    ensures
        r@ == (LightIfdV {
            bps: match bps_bytes { Some(b) => spec_u16_at(b@, 0, bo) as u32, None => l@.bps },
            strip_offsets: match offsets_bytes {
                Some(b) => Seq::new(spec_list_len(offsets_count), |k: int| spec_u32_at(b@, 4 * k, bo)),
                None => l@.strip_offsets,
            },
            strip_byte_counts: match counts_bytes {
                Some(b) => Seq::new(spec_list_len(counts_count), |k: int| spec_u32_at(b@, 4 * k, bo)),
                None => l@.strip_byte_counts,
            },
            ..l@
        }),
{
    let mut l = l;
    if let Some(b) = bps_bytes {
        l.bps = read_u16_at(b.as_slice(), 0, bo) as u32;
    }
    if let Some(b) = offsets_bytes {
        let k: usize = if offsets_count < 65536 { offsets_count as usize } else { 65536 };
        l.strip_offsets = read_u32s(b.as_slice(), 0, k, bo);
        assert(l.strip_offsets@ =~= Seq::new(spec_list_len(offsets_count), |j: int| spec_u32_at(b@, 4 * j, bo)));
    }
    if let Some(b) = counts_bytes {
        let k: usize = if counts_count < 65536 { counts_count as usize } else { 65536 };
        l.strip_byte_counts = read_u32s(b.as_slice(), 0, k, bo);
        assert(l.strip_byte_counts@ =~= Seq::new(spec_list_len(counts_count), |j: int| spec_u32_at(b@, 4 * j, bo)));
    }
    l
}

/// An IFD the reader can use: uncompressed RGB with at least three
/// samples, non-empty with sides of at most 4096 pixels, and with strips.
pub open spec fn light_eligible(l: LightIfdV) -> bool {
    l.compression == 1 && l.photometric == 2 && l.spp >= 3 && l.width > 0 && l.height > 0
        && l.strip_offsets.len() > 0 && l.width <= 4096 && l.height <= 4096
}

/// `a` is preferred to `b`: reduced-resolution images (NewSubfileType 1)
/// first, then 8-bit images, then fewer pixels.
pub open spec fn light_better(a: LightIfdV, b: LightIfdV) -> bool {
    let ta = a.subfile_type == 1;
    let tb = b.subfile_type == 1;
    let ea = a.bps == 8;
    let eb = b.bps == 8;
    (ta && !tb) || (ta == tb && ea && !eb) || (ta == tb && ea == eb && a.width * a.height < b.width * b.height)
}

/// `c` is the chosen IFD: usable, and no usable IFD is preferred to it or,
/// equally good, comes before it.
pub open spec fn is_chosen_thumbnail(v: Seq<LightIfdV>, c: int) -> bool {
    &&& 0 <= c < v.len()
    &&& light_eligible(v[c])
    &&& forall|e: int| 0 <= e < v.len() && light_eligible(v[e]) ==> !light_better(v[e], v[c])
    &&& forall|e: int| 0 <= e < c && light_eligible(v[e]) ==> light_better(v[c], v[e])
}

pub open spec fn lights_view(v: Seq<LightIfd>) -> Seq<LightIfdV> {
    v.map_values(|l: LightIfd| l@)
}

/// Chooses the IFD to decode; `None` when no IFD is usable.
pub fn select_thumbnail(ifds: &Vec<LightIfd>) -> (r: Option<usize>)
    ensures
        r matches Some(c) ==> is_chosen_thumbnail(lights_view(ifds@), c as int),
        r is None ==> forall|e: int| 0 <= e < ifds@.len() ==> !light_eligible(#[trigger] lights_view(ifds@)[e]),
{
    let ghost v = lights_view(ifds@);
    let mut best: Option<(usize, u64, bool, bool)> = None;
    let mut i: usize = 0;
    while i < ifds.len()
        invariant
            i <= ifds@.len(),
            v == lights_view(ifds@),
            best matches Some((b, p, t, e)) ==> {
                &&& b < i
                &&& light_eligible(v[b as int])
                &&& p == v[b as int].width * v[b as int].height
                &&& t == (v[b as int].subfile_type == 1)
                &&& e == (v[b as int].bps == 8)
                &&& forall|k: int| 0 <= k < i && light_eligible(v[k]) ==> !light_better(v[k], v[b as int])
                &&& forall|k: int| 0 <= k < b && light_eligible(v[k]) ==> light_better(v[b as int], v[k])
            },
            best is None ==> forall|k: int| 0 <= k < i ==> !light_eligible(#[trigger] v[k]),
        decreases ifds@.len() - i,
    {
        let l = &ifds[i];
        assert(v[i as int] == l@);
        let ok = l.compression == 1 && l.photometric == 2 && l.spp >= 3 && l.width > 0 && l.height > 0
            && l.strip_offsets.len() > 0 && l.width <= 4096 && l.height <= 4096;
        if ok {
            let pixels = mul_u32(l.width, l.height);
            let is_thumb = l.subfile_type == 1;
            let is_8bit = l.bps == 8;
            let better = match best {
                Some((_, bp, bt, b8)) => (is_thumb && !bt) || (is_thumb == bt && is_8bit && !b8)
                    || (is_thumb == bt && is_8bit == b8 && pixels < bp),
                None => true,
            };
            if better {
                best = Some((i, pixels, is_thumb, is_8bit));
            }
        }
        i = i + 1;
    }
    match best {
        Some((b, _, _, _)) => Some(b),
        None => None,
    }
}

/// The image held by the strip bytes of a usable IFD: for 8 bits the first
/// width × height × 3 bytes, for 16 bits that many samples in the file's
/// byte order; `None` when the bytes are too few or the sample size is
/// neither.
pub open spec fn spec_thumbnail_pixels(l: LightIfdV, px: Seq<u8>, bo: ByteOrder) -> Option<RgbPixelsV> {
    let n = l.width * l.height * 3;
    if l.bps == 8 && px.len() >= n {
        Some(RgbPixelsV { width: l.width, height: l.height, data: PixelDataV::Rgb8(px.take(n)) })
    } else if l.bps == 16 && px.len() >= 2 * n {
        Some(RgbPixelsV {
            width: l.width,
            height: l.height,
            data: PixelDataV::Rgb16(Seq::new(n as nat, |i: int| spec_u16_at(px, 2 * i, bo))),
        })
    } else {
        None
    }
}

/// Turns the concatenated strip bytes of the chosen IFD into its image.
pub fn thumbnail_pixels(l: &LightIfd, px: &[u8], bo: ByteOrder) -> (r: Option<RgbPixels>)
    requires
        light_eligible(l@),
    ensures
        (match r { Some(p) => Some(p@), None => None }) == spec_thumbnail_pixels(l@, px@, bo),
{
    assert(l.width * l.height * 3 <= 4096 * 4096 * 3) by (nonlinear_arith)
        requires l.width <= 4096, l.height <= 4096;
    let n: usize = l.width as usize * l.height as usize * 3;
    if l.bps == 8 {
        if px.len() >= n {
            let data = copy_bytes(px, 0, n);
            assert(data@ =~= px@.take(n as int));
            return Some(RgbPixels { width: l.width, height: l.height, data: PixelData::Rgb8(data) });
        }
    } else if l.bps == 16 {
        if px.len() / 2 >= n {
            let data = read_u16s(px, 0, n, bo);
            assert(data@ =~= Seq::new(n as nat, |i: int| spec_u16_at(px@, 2 * i, bo)));
            return Some(RgbPixels { width: l.width, height: l.height, data: PixelData::Rgb16(data) });
        }
    }
    None
}

} // verus!
