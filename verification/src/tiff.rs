//! TIFF / Imacon FFF parser.
//!
//! Reads the byte order mark and magic number (0x2A for TIFF, 0x55 for the
//! Imacon FFF variant), then walks the IFD chain together with sub-IFDs, the
//! EXIF IFD and the Hasselblad MakerNote. Every parse result is specified
//! against a model of the file bytes (`spec_*` functions below).
//!
//! Floating-point tag values (TIFF types FLOAT and DOUBLE) are kept as their
//! IEEE-754 bit patterns.

use std::collections::BTreeMap;
use vstd::prelude::*;
use crate::text::{append_str, decimal, string_from_utf8, string_from_utf8_lossy, u64_decimal, utf8_lossy};
use vstd::utf8::{decode_utf8, valid_utf8};

verus! {

broadcast use {vstd::std_specs::btree::group_btree_axioms, vstd::laws_cmp::group_laws_cmp};

// ─── Byte order and fixed-width reads ──────────────────────────────────────

/// Byte order of a TIFF file.
#[derive(Debug, Clone, Copy, PartialEq, Eq)]
pub enum ByteOrder {
    /// "II" — least significant byte first.
    LittleEndian,
    /// "MM" — most significant byte first.
    BigEndian,
}

/// Unsigned 16-bit value stored at `p`.
pub open spec fn spec_u16_at(d: Seq<u8>, p: int, bo: ByteOrder) -> u16 {
    match bo {
        ByteOrder::LittleEndian => (d[p] + d[p + 1] * 256) as u16,
        ByteOrder::BigEndian => (d[p] * 256 + d[p + 1]) as u16,
    }
}

/// Unsigned 32-bit value stored at `p`.
pub open spec fn spec_u32_at(d: Seq<u8>, p: int, bo: ByteOrder) -> u32 {
    match bo {
        ByteOrder::LittleEndian => (d[p] + d[p + 1] * 0x100 + d[p + 2] * 0x10000 + d[p + 3] * 0x1000000) as u32,
        ByteOrder::BigEndian => (d[p] * 0x1000000 + d[p + 1] * 0x10000 + d[p + 2] * 0x100 + d[p + 3]) as u32,
    }
}

/// Unsigned 64-bit value stored at `p`.
pub open spec fn spec_u64_at(d: Seq<u8>, p: int, bo: ByteOrder) -> u64 {
    match bo {
        ByteOrder::LittleEndian => (spec_u32_at(d, p, bo) + spec_u32_at(d, p + 4, bo) * 0x1_0000_0000) as u64,
        ByteOrder::BigEndian => (spec_u32_at(d, p, bo) * 0x1_0000_0000 + spec_u32_at(d, p + 4, bo)) as u64,
    }
}

/// The bytes of a 16-bit value come back from it: the first byte is the low
/// byte in a little-endian file and the high byte in a big-endian one, and
/// the two orders read the same pair of bytes swapped.
pub proof fn lemma_u16_bytes(d: Seq<u8>, p: int)
    requires
        0 <= p,
        p + 2 <= d.len(),
    ensures
        spec_u16_at(d, p, ByteOrder::LittleEndian) == d[p] + 256 * d[p + 1],
        spec_u16_at(d, p, ByteOrder::BigEndian) == 256 * d[p] + d[p + 1],
        spec_u16_at(d, p, ByteOrder::LittleEndian) % 256 == d[p],
        spec_u16_at(d, p, ByteOrder::LittleEndian) / 256 == d[p + 1],
        spec_u16_at(d, p, ByteOrder::BigEndian) / 256 == d[p],
        spec_u16_at(d, p, ByteOrder::BigEndian) % 256 == d[p + 1],
        spec_u16_at(d, p, ByteOrder::BigEndian) == spec_u16_at(seq![d[p + 1], d[p]], 0, ByteOrder::LittleEndian),
{
    let b0 = d[p] as int;
    let b1 = d[p + 1] as int;
    assert(0 <= b0 + 256 * b1 < 0x10000);
    assert(0 <= 256 * b0 + b1 < 0x10000);
    let q = seq![d[p + 1], d[p]];
    assert(q[0] == d[p + 1] && q[1] == d[p]);
}

/// The bytes of a 32-bit value come back from it, weighted 1, 2^8, 2^16,
/// 2^24 from the first byte on in a little-endian file and 2^24, 2^16, 2^8, 1
/// in a big-endian one; the two orders read the same bytes reversed.
pub proof fn lemma_u32_bytes(d: Seq<u8>, p: int)
    requires
        0 <= p,
        p + 4 <= d.len(),
    ensures
        spec_u32_at(d, p, ByteOrder::LittleEndian) == d[p] + 0x100 * d[p + 1] + 0x10000 * d[p + 2] + 0x1000000 * d[p + 3],
        spec_u32_at(d, p, ByteOrder::BigEndian) == 0x1000000 * d[p] + 0x10000 * d[p + 1] + 0x100 * d[p + 2] + d[p + 3],
        spec_u32_at(d, p, ByteOrder::BigEndian) / 0x1000000 == d[p],
        spec_u32_at(d, p, ByteOrder::BigEndian) / 0x10000 % 0x100 == d[p + 1],
        spec_u32_at(d, p, ByteOrder::BigEndian) / 0x100 % 0x100 == d[p + 2],
        spec_u32_at(d, p, ByteOrder::BigEndian) % 0x100 == d[p + 3],
        spec_u32_at(d, p, ByteOrder::LittleEndian) % 0x100 == d[p],
        spec_u32_at(d, p, ByteOrder::LittleEndian) / 0x100 % 0x100 == d[p + 1],
        spec_u32_at(d, p, ByteOrder::LittleEndian) / 0x10000 % 0x100 == d[p + 2],
        spec_u32_at(d, p, ByteOrder::LittleEndian) / 0x1000000 == d[p + 3],
        spec_u32_at(d, p, ByteOrder::BigEndian) == spec_u32_at(
            seq![d[p + 3], d[p + 2], d[p + 1], d[p]],
            0,
            ByteOrder::LittleEndian,
        ),
{
    let b0 = d[p] as int;
    let b1 = d[p + 1] as int;
    let b2 = d[p + 2] as int;
    let b3 = d[p + 3] as int;
    assert(0 <= b0 + 0x100 * b1 + 0x10000 * b2 + 0x1000000 * b3 < 0x1_0000_0000);
    assert(0 <= 0x1000000 * b0 + 0x10000 * b1 + 0x100 * b2 + b3 < 0x1_0000_0000);
    lemma_four_bytes(b0, b1, b2, b3);
    lemma_four_bytes(b3, b2, b1, b0);
    let q = seq![d[p + 3], d[p + 2], d[p + 1], d[p]];
    assert(q[0] == d[p + 3] && q[1] == d[p + 2] && q[2] == d[p + 1] && q[3] == d[p]);
}

proof fn lemma_four_bytes(b0: int, b1: int, b2: int, b3: int)
    requires
        0 <= b0 < 256,
        0 <= b1 < 256,
        0 <= b2 < 256,
        0 <= b3 < 256,
    ensures
        (0x1000000 * b0 + 0x10000 * b1 + 0x100 * b2 + b3) / 0x1000000 == b0,
        (0x1000000 * b0 + 0x10000 * b1 + 0x100 * b2 + b3) / 0x10000 % 0x100 == b1,
        (0x1000000 * b0 + 0x10000 * b1 + 0x100 * b2 + b3) / 0x100 % 0x100 == b2,
        (0x1000000 * b0 + 0x10000 * b1 + 0x100 * b2 + b3) % 0x100 == b3,
{
    let v = 0x1000000 * b0 + 0x10000 * b1 + 0x100 * b2 + b3;
    assert(v == 0x1000000 * b0 + (0x10000 * b1 + 0x100 * b2 + b3));
    vstd::arithmetic::div_mod::lemma_fundamental_div_mod_converse(v, 0x1000000, b0, 0x10000 * b1 + 0x100 * b2 + b3);
    vstd::arithmetic::div_mod::lemma_fundamental_div_mod_converse(v, 0x10000, 0x100 * b0 + b1, 0x100 * b2 + b3);
    vstd::arithmetic::div_mod::lemma_fundamental_div_mod_converse(0x100 * b0 + b1, 0x100, b0, b1);
    vstd::arithmetic::div_mod::lemma_fundamental_div_mod_converse(v, 0x100, 0x10000 * b0 + 0x100 * b1 + b2, b3);
    vstd::arithmetic::div_mod::lemma_fundamental_div_mod_converse(0x10000 * b0 + 0x100 * b1 + b2, 0x100, 0x100 * b0 + b1, b2);
}

/// Two's-complement reinterpretation of an 8-bit value.
pub open spec fn spec_i8_of(b: u8) -> i8 {
    if b < 128 { b as i8 } else { (b - 256) as i8 }
}

/// Two's-complement reinterpretation of a 16-bit value.
pub open spec fn spec_i16_of(v: u16) -> i16 {
    if v < 0x8000 { v as i16 } else { (v - 0x10000) as i16 }
}

/// Two's-complement reinterpretation of a 32-bit value.
pub open spec fn spec_i32_of(v: u32) -> i32 {
    if v < 0x8000_0000 { v as i32 } else { (v - 0x1_0000_0000) as i32 }
}

pub fn read_u16_at(d: &[u8], p: usize, bo: ByteOrder) -> (r: u16)
    requires
        p + 2 <= d@.len(),
    ensures
        r == spec_u16_at(d@, p as int, bo),
{
    let b0 = d[p] as u16;
    let b1 = d[p + 1] as u16;
    match bo {
        ByteOrder::LittleEndian => b0 + b1 * 256,
        ByteOrder::BigEndian => b0 * 256 + b1,
    }
}

pub fn read_u32_at(d: &[u8], p: usize, bo: ByteOrder) -> (r: u32)
    requires
        p + 4 <= d@.len(),
    ensures
        r == spec_u32_at(d@, p as int, bo),
{
    let b0 = d[p] as u32;
    let b1 = d[p + 1] as u32;
    let b2 = d[p + 2] as u32;
    let b3 = d[p + 3] as u32;
    match bo {
        ByteOrder::LittleEndian => b0 + b1 * 0x100 + b2 * 0x10000 + b3 * 0x1000000,
        ByteOrder::BigEndian => b0 * 0x1000000 + b1 * 0x10000 + b2 * 0x100 + b3,
    }
}

pub fn read_u64_at(d: &[u8], p: usize, bo: ByteOrder) -> (r: u64)
    requires
        p + 8 <= d@.len(),
    ensures
        r == spec_u64_at(d@, p as int, bo),
{
    assert(d@.len() == d.len());
    let a = read_u32_at(d, p, bo) as u64;
    let b = read_u32_at(d, p + 4, bo) as u64;
    match bo {
        ByteOrder::LittleEndian => a + b * 0x1_0000_0000,
        ByteOrder::BigEndian => a * 0x1_0000_0000 + b,
    }
}

fn i8_of(b: u8) -> (r: i8)
    ensures
        r == spec_i8_of(b),
{
    if b < 128 { b as i8 } else { (b as i16 - 256) as i8 }
}

fn i16_of(v: u16) -> (r: i16)
    ensures
        r == spec_i16_of(v),
{
    if v < 0x8000 { v as i16 } else { (v as i32 - 0x10000) as i16 }
}

pub fn i32_of(v: u32) -> (r: i32)
    ensures
        r == spec_i32_of(v),
{
    if v < 0x8000_0000 { v as i32 } else { (v as i64 - 0x1_0000_0000) as i32 }
}

// ─── TIFF field types ──────────────────────────────────────────────────────

/// TIFF field types (TIFF 6.0 §2, types 1..=12).
#[derive(Debug, Clone, Copy, PartialEq, Eq)]
pub enum TiffType {
    Byte,
    Ascii,
    Short,
    Long,
    Rational,
    SByte,
    Undefined,
    SShort,
    SLong,
    SRational,
    Float,
    Double,
}

/// The field type with TIFF type code `v`.
pub open spec fn spec_tiff_type(v: u16) -> Option<TiffType> {
    match v {
        1 => Some(TiffType::Byte),
        2 => Some(TiffType::Ascii),
        3 => Some(TiffType::Short),
        4 => Some(TiffType::Long),
        5 => Some(TiffType::Rational),
        6 => Some(TiffType::SByte),
        7 => Some(TiffType::Undefined),
        8 => Some(TiffType::SShort),
        9 => Some(TiffType::SLong),
        10 => Some(TiffType::SRational),
        11 => Some(TiffType::Float),
        12 => Some(TiffType::Double),
        _ => None,
    }
}

impl TiffType {
    /// Bytes taken by one value of this type.
    pub open spec fn spec_size(self) -> nat {
        match self {
            TiffType::Byte | TiffType::Ascii | TiffType::SByte | TiffType::Undefined => 1,
            TiffType::Short | TiffType::SShort => 2,
            TiffType::Long | TiffType::SLong | TiffType::Float => 4,
            TiffType::Rational | TiffType::SRational | TiffType::Double => 8,
        }
    }

    /// The field type with TIFF type code `v`; `None` for an unknown code.
    pub fn from_u16(v: u16) -> (r: Option<TiffType>)
        ensures
            r == spec_tiff_type(v),
    {
        match v {
            1 => Some(TiffType::Byte),
            2 => Some(TiffType::Ascii),
            3 => Some(TiffType::Short),
            4 => Some(TiffType::Long),
            5 => Some(TiffType::Rational),
            6 => Some(TiffType::SByte),
            7 => Some(TiffType::Undefined),
            8 => Some(TiffType::SShort),
            9 => Some(TiffType::SLong),
            10 => Some(TiffType::SRational),
            11 => Some(TiffType::Float),
            12 => Some(TiffType::Double),
            _ => None,
        }
    }

    /// Bytes taken by one value of this type.
    pub fn size(self) -> (r: usize)
        ensures
            r == self.spec_size(),
    {
        match self {
            TiffType::Byte | TiffType::Ascii | TiffType::SByte | TiffType::Undefined => 1,
            TiffType::Short | TiffType::SShort => 2,
            TiffType::Long | TiffType::SLong | TiffType::Float => 4,
            TiffType::Rational | TiffType::SRational | TiffType::Double => 8,
        }
    }
}

// ─── Tag values ────────────────────────────────────────────────────────────

/// A parsed tag value; one variant per TIFF field type. FLOAT and DOUBLE
/// values are held as their IEEE-754 bit patterns.
#[derive(Debug, Clone)]
pub enum TagValue {
    Byte(Vec<u8>),
    Ascii(String),
    Short(Vec<u16>),
    Long(Vec<u32>),
    Rational(Vec<(u32, u32)>),
    SByte(Vec<i8>),
    Undefined(Vec<u8>),
    SShort(Vec<i16>),
    SLong(Vec<i32>),
    SRational(Vec<(i32, i32)>),
    Float(Vec<u32>),
    Double(Vec<u64>),
}

/// Mathematical model of a `TagValue`.
pub enum TagValueV {
    Byte(Seq<u8>),
    Ascii(Seq<char>),
    Short(Seq<u16>),
    Long(Seq<u32>),
    Rational(Seq<(u32, u32)>),
    SByte(Seq<i8>),
    Undefined(Seq<u8>),
    SShort(Seq<i16>),
    SLong(Seq<i32>),
    SRational(Seq<(i32, i32)>),
    Float(Seq<u32>),
    Double(Seq<u64>),
}

impl View for TagValue {
    type V = TagValueV;

    open spec fn view(&self) -> TagValueV {
        match self {
            TagValue::Byte(v) => TagValueV::Byte(v@),
            TagValue::Ascii(s) => TagValueV::Ascii(s@),
            TagValue::Short(v) => TagValueV::Short(v@),
            TagValue::Long(v) => TagValueV::Long(v@),
            TagValue::Rational(v) => TagValueV::Rational(v@),
            TagValue::SByte(v) => TagValueV::SByte(v@),
            TagValue::Undefined(v) => TagValueV::Undefined(v@),
            TagValue::SShort(v) => TagValueV::SShort(v@),
            TagValue::SLong(v) => TagValueV::SLong(v@),
            TagValue::SRational(v) => TagValueV::SRational(v@),
            TagValue::Float(v) => TagValueV::Float(v@),
            TagValue::Double(v) => TagValueV::Double(v@),
        }
    }
}

/// First value of a BYTE, SHORT or LONG tag, widened to 32 bits.
pub open spec fn spec_as_u32(v: TagValueV) -> Option<u32> {
    match v {
        TagValueV::Byte(s) => if s.len() > 0 { Some(s[0] as u32) } else { None },
        TagValueV::Short(s) => if s.len() > 0 { Some(s[0] as u32) } else { None },
        TagValueV::Long(s) => if s.len() > 0 { Some(s[0]) } else { None },
        _ => None,
    }
}

/// All values of a BYTE, SHORT or LONG tag, widened to 32 bits (empty otherwise).
pub open spec fn spec_as_u32_vec(v: TagValueV) -> Seq<u32> {
    match v {
        TagValueV::Byte(s) => s.map_values(|x: u8| x as u32),
        TagValueV::Short(s) => s.map_values(|x: u16| x as u32),
        TagValueV::Long(s) => s,
        _ => Seq::empty(),
    }
}

impl TagValue {
    /// First value of a BYTE, SHORT or LONG tag as `u32`; `None` for other types
    /// or no values.
    pub fn as_u32(&self) -> (r: Option<u32>)
        ensures
            r == spec_as_u32(self@),
    {
        match self {
            TagValue::Byte(v) => if v.len() > 0 { Some(v[0] as u32) } else { None },
            TagValue::Short(v) => if v.len() > 0 { Some(v[0] as u32) } else { None },
            TagValue::Long(v) => if v.len() > 0 { Some(v[0]) } else { None },
            _ => None,
        }
    }

    /// Every value of a BYTE, SHORT or LONG tag as `u32`; empty for other types.
    pub fn as_u32_vec(&self) -> (r: Vec<u32>)
        ensures
            r@ == spec_as_u32_vec(self@),
    {
        match self {
            TagValue::Byte(v) => {
                let mut out: Vec<u32> = Vec::new();
                let mut i: usize = 0;
                while i < v.len()
                    invariant
                        i <= v@.len(),
                        out@ == v@.take(i as int).map_values(|x: u8| x as u32),
                    decreases v@.len() - i,
                {
                    out.push(v[i] as u32);
                    i = i + 1;
                    assert(out@ =~= v@.take(i as int).map_values(|x: u8| x as u32));
                }
                assert(v@.take(v@.len() as int) =~= v@);
                out
            },
            TagValue::Short(v) => {
                let mut out: Vec<u32> = Vec::new();
                let mut i: usize = 0;
                while i < v.len()
                    invariant
                        i <= v@.len(),
                        out@ == v@.take(i as int).map_values(|x: u16| x as u32),
                    decreases v@.len() - i,
                {
                    out.push(v[i] as u32);
                    i = i + 1;
                    assert(out@ =~= v@.take(i as int).map_values(|x: u16| x as u32));
                }
                assert(v@.take(v@.len() as int) =~= v@);
                out
            },
            TagValue::Long(v) => v.clone(),
            _ => Vec::new(),
        }
    }

    /// The text of an ASCII tag.
    pub fn as_string(&self) -> (r: Option<String>)
        ensures
            r matches Some(s) ==> self@ matches TagValueV::Ascii(t) && s@ == t,
            r is None <==> !(self@ is Ascii),
    {
        match self {
            TagValue::Ascii(s) => Some(s.clone()),
            _ => None,
        }
    }

    /// First (numerator, denominator) pair of a RATIONAL tag.
    pub fn as_rational(&self) -> (r: Option<(u32, u32)>)
        ensures
            r == (match self@ {
                TagValueV::Rational(s) => if s.len() > 0 { Some(s[0]) } else { None },
                _ => None,
            }),
    {
        match self {
            TagValue::Rational(v) => if v.len() > 0 { Some(v[0]) } else { None },
            _ => None,
        }
    }

    /// First (numerator, denominator) pair of an SRATIONAL tag.
    pub fn as_srational(&self) -> (r: Option<(i32, i32)>)
        ensures
            r == (match self@ {
                TagValueV::SRational(s) => if s.len() > 0 { Some(s[0]) } else { None },
                _ => None,
            }),
    {
        match self {
            TagValue::SRational(v) => if v.len() > 0 { Some(v[0]) } else { None },
            _ => None,
        }
    }

    /// The raw bytes of a BYTE or UNDEFINED tag.
    pub fn as_bytes(&self) -> (r: Option<&[u8]>)
        ensures
            r matches Some(b) ==> (self@ matches TagValueV::Byte(s) && b@ == s)
                || (self@ matches TagValueV::Undefined(s) && b@ == s),
            r is None <==> !(self@ is Byte || self@ is Undefined),
    {
        match self {
            TagValue::Byte(v) | TagValue::Undefined(v) => Some(v.as_slice()),
            _ => None,
        }
    }
}

/// `count` consecutive SHORT values starting at `pos`.
pub(crate) fn read_u16s(d: &[u8], pos: usize, count: usize, bo: ByteOrder) -> (r: Vec<u16>)
    requires
        pos + 2 * count <= d@.len(),
    ensures
        r@ == Seq::new(count as nat, |k: int| spec_u16_at(d@, pos + 2 * k, bo)),
{
    let mut out: Vec<u16> = Vec::new();
    let mut i: usize = 0;
    while i < count
        invariant
            i <= count,
            pos + 2 * count <= d@.len(),
            out@ == Seq::new(i as nat, |k: int| spec_u16_at(d@, pos + 2 * k, bo)),
        decreases count - i,
    {
        assert(d@.len() == d.len());
        assert(pos + 2 * i + 2 <= pos + 2 * count) by (nonlinear_arith)
            requires
                i < count,
        ;
        let x = read_u16_at(d, pos + 2 * i, bo);
        out.push(x);
        i = i + 1;
        assert(out@ =~= Seq::new(i as nat, |k: int| spec_u16_at(d@, pos + 2 * k, bo)));
    }
    out
}

/// `count` consecutive LONG values (or FLOAT bit patterns) starting at `pos`.
pub(crate) fn read_u32s(d: &[u8], pos: usize, count: usize, bo: ByteOrder) -> (r: Vec<u32>)
    requires
        pos + 4 * count <= d@.len(),
    ensures
        r@ == Seq::new(count as nat, |k: int| spec_u32_at(d@, pos + 4 * k, bo)),
{
    let mut out: Vec<u32> = Vec::new();
    let mut i: usize = 0;
    while i < count
        invariant
            i <= count,
            pos + 4 * count <= d@.len(),
            out@ == Seq::new(i as nat, |k: int| spec_u32_at(d@, pos + 4 * k, bo)),
        decreases count - i,
    {
        assert(d@.len() == d.len());
        assert(pos + 4 * i + 4 <= pos + 4 * count) by (nonlinear_arith)
            requires
                i < count,
        ;
        let x = read_u32_at(d, pos + 4 * i, bo);
        out.push(x);
        i = i + 1;
        assert(out@ =~= Seq::new(i as nat, |k: int| spec_u32_at(d@, pos + 4 * k, bo)));
    }
    out
}

/// `count` consecutive DOUBLE bit patterns starting at `pos`.
fn read_u64s(d: &[u8], pos: usize, count: usize, bo: ByteOrder) -> (r: Vec<u64>)
    requires
        pos + 8 * count <= d@.len(),
    ensures
        r@ == Seq::new(count as nat, |k: int| spec_u64_at(d@, pos + 8 * k, bo)),
{
    let mut out: Vec<u64> = Vec::new();
    let mut i: usize = 0;
    while i < count
        invariant
            i <= count,
            pos + 8 * count <= d@.len(),
            out@ == Seq::new(i as nat, |k: int| spec_u64_at(d@, pos + 8 * k, bo)),
        decreases count - i,
    {
        assert(d@.len() == d.len());
        assert(pos + 8 * i + 8 <= pos + 8 * count) by (nonlinear_arith)
            requires
                i < count,
        ;
        let x = read_u64_at(d, pos + 8 * i, bo);
        out.push(x);
        i = i + 1;
        assert(out@ =~= Seq::new(i as nat, |k: int| spec_u64_at(d@, pos + 8 * k, bo)));
    }
    out
}

/// `count` consecutive RATIONAL pairs starting at `pos`.
fn read_rationals(d: &[u8], pos: usize, count: usize, bo: ByteOrder) -> (r: Vec<(u32, u32)>)
    requires
        pos + 8 * count <= d@.len(),
    ensures
        r@ == Seq::new(count as nat, |k: int| (spec_u32_at(d@, pos + 8 * k, bo), spec_u32_at(d@, pos + 8 * k + 4, bo))),
{
    let mut out: Vec<(u32, u32)> = Vec::new();
    let mut i: usize = 0;
    while i < count
        invariant
            i <= count,
            pos + 8 * count <= d@.len(),
            out@ == Seq::new(i as nat, |k: int| (spec_u32_at(d@, pos + 8 * k, bo), spec_u32_at(d@, pos + 8 * k + 4, bo))),
        decreases count - i,
    {
        assert(d@.len() == d.len());
        assert(pos + 8 * i + 8 <= pos + 8 * count) by (nonlinear_arith)
            requires
                i < count,
        ;
        let x = (read_u32_at(d, pos + 8 * i, bo), read_u32_at(d, pos + 8 * i + 4, bo));
        out.push(x);
        i = i + 1;
        assert(out@ =~= Seq::new(i as nat, |k: int| (spec_u32_at(d@, pos + 8 * k, bo), spec_u32_at(d@, pos + 8 * k + 4, bo))));
    }
    out
}

/// `count` consecutive SBYTE values starting at `pos`.
fn read_i8s(d: &[u8], pos: usize, count: usize, bo: ByteOrder) -> (r: Vec<i8>)
    requires
        pos + 1 * count <= d@.len(),
    ensures
        r@ == Seq::new(count as nat, |k: int| spec_i8_of(d@[pos + k])),
{
    let mut out: Vec<i8> = Vec::new();
    let mut i: usize = 0;
    while i < count
        invariant
            i <= count,
            pos + 1 * count <= d@.len(),
            out@ == Seq::new(i as nat, |k: int| spec_i8_of(d@[pos + k])),
        decreases count - i,
    {
        assert(d@.len() == d.len());
        assert(pos + 1 * i + 1 <= pos + 1 * count) by (nonlinear_arith)
            requires
                i < count,
        ;
        let x = i8_of(d[pos + i]);
        out.push(x);
        i = i + 1;
        assert(out@ =~= Seq::new(i as nat, |k: int| spec_i8_of(d@[pos + k])));
    }
    out
}

/// `count` consecutive SSHORT values starting at `pos`.
fn read_i16s(d: &[u8], pos: usize, count: usize, bo: ByteOrder) -> (r: Vec<i16>)
    requires
        pos + 2 * count <= d@.len(),
    ensures
        r@ == Seq::new(count as nat, |k: int| spec_i16_of(spec_u16_at(d@, pos + 2 * k, bo))),
{
    let mut out: Vec<i16> = Vec::new();
    let mut i: usize = 0;
    while i < count
        invariant
            i <= count,
            pos + 2 * count <= d@.len(),
            out@ == Seq::new(i as nat, |k: int| spec_i16_of(spec_u16_at(d@, pos + 2 * k, bo))),
        decreases count - i,
    {
        assert(d@.len() == d.len());
        assert(pos + 2 * i + 2 <= pos + 2 * count) by (nonlinear_arith)
            requires
                i < count,
        ;
        let x = i16_of(read_u16_at(d, pos + 2 * i, bo));
        out.push(x);
        i = i + 1;
        assert(out@ =~= Seq::new(i as nat, |k: int| spec_i16_of(spec_u16_at(d@, pos + 2 * k, bo))));
    }
    out
}

/// `count` consecutive SLONG values starting at `pos`.
fn read_i32s(d: &[u8], pos: usize, count: usize, bo: ByteOrder) -> (r: Vec<i32>)
    requires
        pos + 4 * count <= d@.len(),
    ensures
        r@ == Seq::new(count as nat, |k: int| spec_i32_of(spec_u32_at(d@, pos + 4 * k, bo))),
{
    let mut out: Vec<i32> = Vec::new();
    let mut i: usize = 0;
    while i < count
        invariant
            i <= count,
            pos + 4 * count <= d@.len(),
            out@ == Seq::new(i as nat, |k: int| spec_i32_of(spec_u32_at(d@, pos + 4 * k, bo))),
        decreases count - i,
    {
        assert(d@.len() == d.len());
        assert(pos + 4 * i + 4 <= pos + 4 * count) by (nonlinear_arith)
            requires
                i < count,
        ;
        let x = i32_of(read_u32_at(d, pos + 4 * i, bo));
        out.push(x);
        i = i + 1;
        assert(out@ =~= Seq::new(i as nat, |k: int| spec_i32_of(spec_u32_at(d@, pos + 4 * k, bo))));
    }
    out
}

/// `count` consecutive SRATIONAL pairs starting at `pos`.
fn read_srationals(d: &[u8], pos: usize, count: usize, bo: ByteOrder) -> (r: Vec<(i32, i32)>)
    requires
        pos + 8 * count <= d@.len(),
    ensures
        r@ == Seq::new(count as nat, |k: int| (spec_i32_of(spec_u32_at(d@, pos + 8 * k, bo)), spec_i32_of(spec_u32_at(d@, pos + 8 * k + 4, bo)))),
{
    let mut out: Vec<(i32, i32)> = Vec::new();
    let mut i: usize = 0;
    while i < count
        invariant
            i <= count,
            pos + 8 * count <= d@.len(),
            out@ == Seq::new(i as nat, |k: int| (spec_i32_of(spec_u32_at(d@, pos + 8 * k, bo)), spec_i32_of(spec_u32_at(d@, pos + 8 * k + 4, bo)))),
        decreases count - i,
    {
        assert(d@.len() == d.len());
        assert(pos + 8 * i + 8 <= pos + 8 * count) by (nonlinear_arith)
            requires
                i < count,
        ;
        let x = (i32_of(read_u32_at(d, pos + 8 * i, bo)), i32_of(read_u32_at(d, pos + 8 * i + 4, bo)));
        out.push(x);
        i = i + 1;
        assert(out@ =~= Seq::new(i as nat, |k: int| (spec_i32_of(spec_u32_at(d@, pos + 8 * k, bo)), spec_i32_of(spec_u32_at(d@, pos + 8 * k + 4, bo)))));
    }
    out
}

/// Bytes taken by `count` values of type `t`.
fn value_bytes(t: TiffType, count: u32) -> (r: u64)
    ensures
        r == t.spec_size() * count,
{
    let sz = t.size() as u64;
    assert(sz * count <= 8 * 0xFFFF_FFFF) by (nonlinear_arith)
        requires
            sz <= 8,
            count <= 0xFFFF_FFFF,
    ;
    sz * count as u64
}

/// `s` without its trailing zero bytes.
pub open spec fn trim_trailing_zeros(s: Seq<u8>) -> Seq<u8>
    decreases s.len(),
{
    if s.len() > 0 && s.last() == 0 {
        trim_trailing_zeros(s.drop_last())
    } else {
        s
    }
}

/// The value of `count` items of type `t` stored at `pos`, or `None` when they
/// do not fit inside the data. ASCII text is decoded leniently (as
/// `String::from_utf8_lossy`) and loses its trailing NUL characters; since a NUL
/// character is decoded only from a zero byte, this equals dropping the
/// trailing zero bytes before decoding.
pub open spec fn spec_read_value(d: Seq<u8>, t: TiffType, count: nat, pos: int, bo: ByteOrder) -> Option<TagValueV> {
    if pos < 0 || pos + t.spec_size() * count > d.len() {
        None
    } else {
        Some(match t {
            TiffType::Byte => TagValueV::Byte(d.subrange(pos, pos + count)),
            TiffType::Ascii => TagValueV::Ascii(utf8_lossy(trim_trailing_zeros(d.subrange(pos, pos + count)))),
            TiffType::Short => TagValueV::Short(Seq::new(count, |k: int| spec_u16_at(d, pos + 2 * k, bo))),
            TiffType::Long => TagValueV::Long(Seq::new(count, |k: int| spec_u32_at(d, pos + 4 * k, bo))),
            TiffType::Rational => TagValueV::Rational(Seq::new(count, |k: int| (spec_u32_at(d, pos + 8 * k, bo), spec_u32_at(d, pos + 8 * k + 4, bo)))),
            TiffType::SByte => TagValueV::SByte(Seq::new(count, |k: int| spec_i8_of(d[pos + k]))),
            TiffType::Undefined => TagValueV::Undefined(d.subrange(pos, pos + count)),
            TiffType::SShort => TagValueV::SShort(Seq::new(count, |k: int| spec_i16_of(spec_u16_at(d, pos + 2 * k, bo)))),
            TiffType::SLong => TagValueV::SLong(Seq::new(count, |k: int| spec_i32_of(spec_u32_at(d, pos + 4 * k, bo)))),
            TiffType::SRational => TagValueV::SRational(Seq::new(count, |k: int| (spec_i32_of(spec_u32_at(d, pos + 8 * k, bo)), spec_i32_of(spec_u32_at(d, pos + 8 * k + 4, bo))))),
            TiffType::Float => TagValueV::Float(Seq::new(count, |k: int| spec_u32_at(d, pos + 4 * k, bo))),
            TiffType::Double => TagValueV::Double(Seq::new(count, |k: int| spec_u64_at(d, pos + 8 * k, bo))),
        })
    }
}

pub fn copy_bytes(d: &[u8], lo: usize, hi: usize) -> (r: Vec<u8>)
    requires
        lo <= hi <= d@.len(),
    ensures
        r@ == d@.subrange(lo as int, hi as int),
{
    let mut out: Vec<u8> = Vec::new();
    let mut i = lo;
    while i < hi
        invariant
            lo <= i <= hi <= d@.len(),
            out@ == d@.subrange(lo as int, i as int),
        decreases hi - i,
    {
        out.push(d[i]);
        i = i + 1;
        assert(out@ =~= d@.subrange(lo as int, i as int));
    }
    out
}

/// Reads `count` items of type `t` at `pos`.
pub fn read_value(d: &[u8], t: TiffType, count: u32, pos: u64, bo: ByteOrder) -> (r: Option<TagValue>)
    ensures
        r matches Some(v) ==> spec_read_value(d@, t, count as nat, pos as int, bo) == Some(v@),
        r is None <==> spec_read_value(d@, t, count as nat, pos as int, bo) is None,
{
    let total: u64 = value_bytes(t, count);
    let len = d.len() as u64;
    if pos > len || total > len - pos {
        return None;
    }
    let p = pos as usize;
    let n = count as usize;
    let v = match t {
        TiffType::Byte => TagValue::Byte(copy_bytes(d, p, p + n)),
        TiffType::Ascii => {
            let mut end = p + n;
            while end > p && d[end - 1] == 0
                invariant
                    p <= end <= p + n <= d@.len(),
                    trim_trailing_zeros(d@.subrange(p as int, (p + n) as int)) == trim_trailing_zeros(d@.subrange(p as int, end as int)),
                decreases end - p,
            {
                assert(d@.subrange(p as int, end as int).drop_last() =~= d@.subrange(p as int, end - 1));
                end = end - 1;
            }
            assert(trim_trailing_zeros(d@.subrange(p as int, end as int)) == d@.subrange(p as int, end as int));
            let bytes = copy_bytes(d, p, end);
            TagValue::Ascii(string_from_utf8_lossy(bytes.as_slice()))
        },
        TiffType::Short => TagValue::Short(read_u16s(d, p, n, bo)),
        TiffType::Long => TagValue::Long(read_u32s(d, p, n, bo)),
        TiffType::Rational => TagValue::Rational(read_rationals(d, p, n, bo)),
        TiffType::SByte => TagValue::SByte(read_i8s(d, p, n, bo)),
        TiffType::Undefined => TagValue::Undefined(copy_bytes(d, p, p + n)),
        TiffType::SShort => TagValue::SShort(read_i16s(d, p, n, bo)),
        TiffType::SLong => TagValue::SLong(read_i32s(d, p, n, bo)),
        TiffType::SRational => TagValue::SRational(read_srationals(d, p, n, bo)),
        TiffType::Float => TagValue::Float(read_u32s(d, p, n, bo)),
        TiffType::Double => TagValue::Double(read_u64s(d, p, n, bo)),
    };
    Some(v)
}

// ─── IFDs ──────────────────────────────────────────────────────────────────

/// Why a TIFF/FFF byte stream was rejected.
#[derive(Debug, Clone, Copy, PartialEq, Eq)]
pub enum TiffError {
    /// Fewer than the 8 header bytes.
    TooSmall,
    /// The first two bytes are neither "II" nor "MM".
    InvalidByteOrder(u8, u8),
    /// The magic number is neither 0x2A nor 0x55.
    UnsupportedMagic(u16),
    /// An IFD declares more than 1000 entries.
    TooManyEntries(u16),
    /// A read ran past the end of the data.
    UnexpectedEof,
    /// A MakerNote too short to hold an entry count.
    MakerNoteTooShort,
    /// A MakerNote entry count of 0 or above 500.
    InvalidMakerNoteCount(u16),
}

/// One IFD entry: tag number, raw field type, value count and parsed value.
#[derive(Debug, Clone)]
pub struct IfdEntry {
    pub tag: u16,
    pub tiff_type: u16,
    pub count: u32,
    pub value: TagValue,
}

/// Model of an `IfdEntry`.
pub struct IfdEntryV {
    pub tag: u16,
    pub tiff_type: u16,
    pub count: u32,
    pub value: TagValueV,
}

impl View for IfdEntry {
    type V = IfdEntryV;

    open spec fn view(&self) -> IfdEntryV {
        IfdEntryV { tag: self.tag, tiff_type: self.tiff_type, count: self.count, value: self.value@ }
    }
}

/// An image file directory: a name ("IFD#0", "EXIF", "MakerNote", ...) and its
/// entries keyed by tag number.
#[derive(Debug, Clone)]
pub struct Ifd {
    pub name: String,
    pub entries: BTreeMap<u16, IfdEntry>,
}

/// Model of an `Ifd`.
pub struct IfdV {
    pub name: Seq<char>,
    pub entries: Map<u16, IfdEntryV>,
}

pub open spec fn entries_view(m: Map<u16, IfdEntry>) -> Map<u16, IfdEntryV> {
    m.map_values(|e: IfdEntry| e@)
}

impl View for Ifd {
    type V = IfdV;

    open spec fn view(&self) -> IfdV {
        IfdV { name: self.name@, entries: entries_view(self.entries@) }
    }
}

/// Value of `tag` in a map of entries.
pub open spec fn spec_entries_get(m: Map<u16, IfdEntryV>, tag: u16) -> Option<TagValueV> {
    if m.contains_key(tag) {
        Some(m[tag].value)
    } else {
        None
    }
}

/// Value of `tag` in an IFD model.
pub open spec fn spec_ifd_get(ifd: IfdV, tag: u16) -> Option<TagValueV> {
    spec_entries_get(ifd.entries, tag)
}

/// `spec_ifd_get` followed by `spec_as_u32`.
pub open spec fn spec_ifd_get_u32(ifd: IfdV, tag: u16) -> Option<u32> {
    match spec_ifd_get(ifd, tag) {
        Some(v) => spec_as_u32(v),
        None => None,
    }
}

impl Ifd {
    /// The value stored under `tag`.
    pub fn get(&self, tag: u16) -> (r: Option<&TagValue>)
        ensures
            r matches Some(v) ==> spec_ifd_get(self@, tag) == Some(v@),
            r is None <==> spec_ifd_get(self@, tag) is None,
    {
        match self.entries.get(&tag) {
            Some(e) => Some(&e.value),
            None => None,
        }
    }

    /// The first value under `tag` as `u32` (BYTE, SHORT or LONG tags).
    pub fn get_u32(&self, tag: u16) -> (r: Option<u32>)
        ensures
            r == spec_ifd_get_u32(self@, tag),
    {
        match self.get(tag) {
            Some(v) => v.as_u32(),
            None => None,
        }
    }

    /// The text under `tag` (ASCII tags).
    pub fn get_string(&self, tag: u16) -> (r: Option<String>)
        ensures
            r matches Some(s) ==> spec_ifd_get(self@, tag) == Some(TagValueV::Ascii(s@)),
            r is None <==> !(spec_ifd_get(self@, tag) matches Some(v) && v is Ascii),
    {
        match self.get(tag) {
            Some(v) => v.as_string(),
            None => None,
        }
    }
}

/// The entry whose 12-byte record starts at `p`, with offsets of out-of-line
/// values taken relative to the start of `d` shifted by `base`; `None` for an
/// unknown field type or a value that does not fit inside `d`.
pub open spec fn spec_entry(d: Seq<u8>, bo: ByteOrder, p: int, base: int) -> Option<IfdEntryV> {
    let tag = spec_u16_at(d, p, bo);
    let raw = spec_u16_at(d, p + 2, bo);
    let count = spec_u32_at(d, p + 4, bo);
    let vo = spec_u32_at(d, p + 8, bo);
    match spec_tiff_type(raw) {
        None => None,
        Some(t) => {
            let pos = if t.spec_size() * count <= 4 { p + 8 } else { vo - base };
            match spec_read_value(d, t, count as nat, pos, bo) {
                None => None,
                Some(v) => Some(IfdEntryV { tag, tiff_type: raw, count, value: v }),
            }
        },
    }
}

/// The entries of the `n` records starting at `start`; a later record with
/// the same tag replaces an earlier one, and unreadable records are skipped.
pub open spec fn spec_entries(d: Seq<u8>, bo: ByteOrder, start: int, n: nat) -> Map<u16, IfdEntryV>
    decreases n,
{
    if n == 0 {
        Map::empty()
    } else {
        let m = spec_entries(d, bo, start, (n - 1) as nat);
        match spec_entry(d, bo, start + 12 * (n - 1), 0) {
            Some(e) => m.insert(e.tag, e),
            None => m,
        }
    }
}

/// The IFD at `offset`: its entries and the offset of the next IFD (0 when the
/// next-offset field is cut off). `None` when the count or an entry record
/// lies past the end of the data, or the count exceeds 1000.
pub open spec fn spec_parse_ifd(d: Seq<u8>, bo: ByteOrder, offset: int) -> Option<(Map<u16, IfdEntryV>, u32)> {
    if offset + 2 > d.len() {
        None
    } else {
        let n = spec_u16_at(d, offset, bo);
        let end = offset + 2 + 12 * n;
        if n > 1000 || end > d.len() {
            None
        } else {
            Some((spec_entries(d, bo, offset + 2, n as nat), if end + 4 <= d.len() { spec_u32_at(d, end, bo) } else { 0 }))
        }
    }
}

/// Reads the entry record at `p`; offsets of out-of-line values are relative
/// to the start of `d` shifted by `base`.
fn read_entry(d: &[u8], bo: ByteOrder, p: usize, base: u64) -> (r: Option<IfdEntry>)
    requires
        p + 12 <= d@.len(),
    ensures
        r matches Some(e) ==> spec_entry(d@, bo, p as int, base as int) == Some(e@),
        r is None <==> spec_entry(d@, bo, p as int, base as int) is None,
{
    assert(d@.len() == d.len());
    let tag = read_u16_at(d, p, bo);
    let raw = read_u16_at(d, p + 2, bo);
    let count = read_u32_at(d, p + 4, bo);
    let vo = read_u32_at(d, p + 8, bo);
    match TiffType::from_u16(raw) {
        None => None,
        Some(t) => {
            let total: u64 = value_bytes(t, count);
            let pos: u64 = if total <= 4 {
                (p + 8) as u64
            } else if vo as u64 >= base {
                vo as u64 - base
            } else {
                // A position before the data: nothing can be read there.
                return None;
            };
            match read_value(d, t, count, pos, bo) {
                None => None,
                Some(v) => Some(IfdEntry { tag, tiff_type: raw, count, value: v }),
            }
        },
    }
}

proof fn lemma_entries_view_insert(m: Map<u16, IfdEntry>, k: u16, e: IfdEntry)
    ensures
        entries_view(m.insert(k, e)) == entries_view(m).insert(k, e@),
{
    assert(entries_view(m.insert(k, e)) =~= entries_view(m).insert(k, e@));
}

/// Why the IFD at `offset` cannot be read: its entry count lies past the
/// end, the count is over 1000, or the entries run past the end.
pub open spec fn spec_ifd_error(d: Seq<u8>, bo: ByteOrder, offset: int) -> TiffError {
    if offset + 2 > d.len() {
        TiffError::UnexpectedEof
    } else if spec_u16_at(d, offset, bo) > 1000 {
        TiffError::TooManyEntries(spec_u16_at(d, offset, bo))
    } else {
        TiffError::UnexpectedEof
    }
}

/// Parses the IFD at `offset`, returning it (named `name`) with the offset of
/// the next IFD.
pub fn parse_ifd(d: &[u8], bo: ByteOrder, offset: u32, name: String) -> (r: Result<(Ifd, u32), TiffError>)
    ensures
        r matches Ok((ifd, next)) ==> spec_parse_ifd(d@, bo, offset as int) == Some((ifd@.entries, next))
            && ifd@.name == name@,
        r is Err <==> spec_parse_ifd(d@, bo, offset as int) is None,
        r matches Err(e) ==> (e is TooManyEntries || e is UnexpectedEof),
        r matches Err(e) ==> e == spec_ifd_error(d@, bo, offset as int),
{
    let len = d.len();
    if offset as u64 + 2 > len as u64 {
        return Err(TiffError::UnexpectedEof);
    }
    let start = offset as usize;
    let n = read_u16_at(d, start, bo);
    if n > 1000 {
        return Err(TiffError::TooManyEntries(n));
    }
    let end_u64: u64 = start as u64 + 2 + 12 * n as u64;
    if end_u64 > len as u64 {
        return Err(TiffError::UnexpectedEof);
    }
    let end = end_u64 as usize;
    let mut entries: BTreeMap<u16, IfdEntry> = BTreeMap::new();
    assert(entries_view(entries@) =~= Map::empty());
    let mut i: usize = 0;
    while i < n as usize
        invariant
            i <= n as usize,
            end == start + 2 + 12 * n,
            end <= d@.len(),
            entries_view(entries@) == spec_entries(d@, bo, start + 2, i as nat),
        decreases n as usize - i,
    {
        let p = start + 2 + 12 * i;
        if let Some(e) = read_entry(d, bo, p, 0) {
            let ghost old_entries = entries@;
            let tag = e.tag;
            entries.insert(tag, e);
            proof {
                lemma_entries_view_insert(old_entries, tag, e);
            }
        }
        i = i + 1;
    }
    let next = if len >= 4 && end <= len - 4 { read_u32_at(d, end, bo) } else { 0 };
    Ok((Ifd { name, entries }, next))
}

// ─── MakerNote ─────────────────────────────────────────────────────────────

/// "HASSELBLAD"
pub open spec fn hasselblad_upper() -> Seq<u8> {
    seq![0x48u8, 0x41, 0x53, 0x53, 0x45, 0x4C, 0x42, 0x4C, 0x41, 0x44]
}

/// "Hasselblad"
pub open spec fn hasselblad_mixed() -> Seq<u8> {
    seq![0x48u8, 0x61, 0x73, 0x73, 0x65, 0x6C, 0x62, 0x6C, 0x61, 0x64]
}

/// Where the IFD inside a MakerNote starts: after a "HASSELBLAD"/"Hasselblad"
/// header (only looked for in MakerNotes longer than 12 bytes) the IFD begins
/// after the first zero byte, rounded up to an even offset; otherwise at 0.
pub open spec fn spec_makernote_start(mn: Seq<u8>) -> int {
    if mn.len() > 12 && (mn.subrange(0, 10) == hasselblad_upper() || mn.subrange(0, 10) == hasselblad_mixed()) {
        let z = if exists|i: int| 0 <= i < mn.len() && mn[i] == 0 {
            (choose|i: int| 0 <= i < mn.len() && mn[i] == 0 && forall|j: int| 0 <= j < i ==> mn[j] != 0) + 1
        } else {
            0
        };
        if z % 2 != 0 { z + 1 } else { z }
    } else {
        0
    }
}

/// A MakerNote entry: as `spec_entry`, but values larger than 64 KiB are skipped.
pub open spec fn spec_mn_entry(sub: Seq<u8>, bo: ByteOrder, p: int, base: int) -> Option<IfdEntryV> {
    let raw = spec_u16_at(sub, p + 2, bo);
    let count = spec_u32_at(sub, p + 4, bo);
    if spec_tiff_type(raw) matches Some(t) && t.spec_size() * count > 65536 {
        None
    } else {
        spec_entry(sub, bo, p, base)
    }
}

/// Entries of the first `n` MakerNote records.
pub open spec fn spec_mn_entries(sub: Seq<u8>, bo: ByteOrder, n: nat, base: int) -> Map<u16, IfdEntryV>
    decreases n,
{
    if n == 0 {
        Map::empty()
    } else {
        let m = spec_mn_entries(sub, bo, (n - 1) as nat, base);
        match spec_mn_entry(sub, bo, 2 + 12 * (n - 1), base) {
            Some(e) => m.insert(e.tag, e),
            None => m,
        }
    }
}

/// The MakerNote IFD: its entries are read from the bytes after the header,
/// with out-of-line offsets relative to the MakerNote start; records that do
/// not fit completely are not read.
pub open spec fn spec_parse_makernote(mn: Seq<u8>, bo: ByteOrder) -> Result<Map<u16, IfdEntryV>, TiffError> {
    let off = spec_makernote_start(mn);
    if off + 2 > mn.len() {
        Err(TiffError::MakerNoteTooShort)
    } else {
        let sub = mn.subrange(off, mn.len() as int);
        let count = spec_u16_at(sub, 0, bo);
        if count > 500 || count == 0 {
            Err(TiffError::InvalidMakerNoteCount(count))
        } else {
            let fit = (sub.len() - 2) / 12;
            let n = if count < fit { count as int } else { fit };
            Ok(spec_mn_entries(sub, bo, n as nat, off))
        }
    }
}

fn starts_with_bytes(d: &[u8], lit: &[u8]) -> (b: bool)
    requires
        lit@.len() <= d@.len(),
    ensures
        b == (d@.subrange(0, lit@.len() as int) == lit@),
{
    let mut i: usize = 0;
    while i < lit.len()
        invariant
            i <= lit@.len() <= d@.len(),
            forall|j: int| 0 <= j < i ==> d@[j] == lit@[j],
        decreases lit@.len() - i,
    {
        if d[i] != lit[i] {
            assert(d@.subrange(0, lit@.len() as int)[i as int] != lit@[i as int]);
            return false;
        }
        i = i + 1;
    }
    assert(d@.subrange(0, lit@.len() as int) =~= lit@);
    true
}

/// Parses a Hasselblad MakerNote (the bytes of EXIF tag 0x927C).
pub fn parse_makernote(mn: &[u8], bo: ByteOrder) -> (r: Result<Ifd, TiffError>)
    ensures
        r matches Ok(ifd) ==> spec_parse_makernote(mn@, bo) == Ok::<Map<u16, IfdEntryV>, TiffError>(ifd@.entries)
            && ifd@.name == "MakerNote"@,
        r matches Err(e) ==> spec_parse_makernote(mn@, bo) == Err::<Map<u16, IfdEntryV>, TiffError>(e),
{
    assert(mn@.len() == mn.len());
    let mut off64: u64 = 0;
    if mn.len() > 12 {
        let upper = vec![0x48u8, 0x41, 0x53, 0x53, 0x45, 0x4C, 0x42, 0x4C, 0x41, 0x44];
        let mixed = vec![0x48u8, 0x61, 0x73, 0x73, 0x65, 0x6C, 0x62, 0x6C, 0x61, 0x64];
        assert(upper@ == hasselblad_upper());
        assert(mixed@ == hasselblad_mixed());
        if starts_with_bytes(mn, upper.as_slice()) || starts_with_bytes(mn, mixed.as_slice()) {
            let mut z: usize = 0;
            while z < mn.len() && mn[z] != 0
                invariant
                    z <= mn@.len(),
                    forall|j: int| 0 <= j < z ==> mn@[j] != 0,
                decreases mn@.len() - z,
            {
                z = z + 1;
            }
            let start = if z < mn.len() {
                assert(exists|i: int| 0 <= i < mn@.len() && mn@[i] == 0);
                let ghost c = choose|i: int| 0 <= i < mn@.len() && mn@[i] == 0 && forall|j: int| 0 <= j < i ==> mn@[j] != 0;
                assert(c == z) by {
                    if c < z {
                    } else if c > z {
                    }
                }
                z + 1
            } else {
                assert(!exists|i: int| 0 <= i < mn@.len() && mn@[i] == 0);
                0
            };
            if start % 2 != 0 && start >= mn.len() {
                return Err(TiffError::MakerNoteTooShort);
            }
            off64 = if start % 2 != 0 { (start + 1) as u64 } else { start as u64 };
        }
    }
    assert(off64 == spec_makernote_start(mn@));
    if off64 > mn.len() as u64 || mn.len() as u64 - off64 < 2 {
        return Err(TiffError::MakerNoteTooShort);
    }
    let off = off64 as usize;
    let sub = copy_bytes(mn, off, mn.len());
    let count = read_u16_at(sub.as_slice(), 0, bo);
    if count > 500 || count == 0 {
        return Err(TiffError::InvalidMakerNoteCount(count));
    }
    let fit = (sub.len() - 2) / 12;
    let n: usize = if (count as usize) < fit { count as usize } else { fit };
    let base = off as u64;
    let mut entries: BTreeMap<u16, IfdEntry> = BTreeMap::new();
    assert(entries_view(entries@) =~= Map::empty());
    let mut i: usize = 0;
    while i < n
        invariant
            i <= n,
            n <= fit,
            fit == (sub@.len() - 2) / 12,
            sub@.len() >= 2,
            base == off,
            entries_view(entries@) == spec_mn_entries(sub@, bo, i as nat, off as int),
        decreases n - i,
    {
        assert(2 + 12 * i + 12 <= sub@.len()) by (nonlinear_arith)
            requires
                i < n,
                n <= fit,
                fit == (sub@.len() - 2) / 12,
                sub@.len() >= 2,
        ;
        assert(sub@.len() == sub.len());
        let p = 2 + 12 * i;
        let raw = read_u16_at(sub.as_slice(), p + 2, bo);
        let cnt = read_u32_at(sub.as_slice(), p + 4, bo);
        let big = match TiffType::from_u16(raw) {
            Some(t) => value_bytes(t, cnt) > 65536,
            None => false,
        };
        if !big {
            if let Some(e) = read_entry(sub.as_slice(), bo, p, base) {
                let ghost old_entries = entries@;
                let tag = e.tag;
                entries.insert(tag, e);
                proof {
                    lemma_entries_view_insert(old_entries, tag, e);
                }
            }
        }
        i = i + 1;
    }
    let mut name = String::new();
    append_str(&mut name, "MakerNote");
    Ok(Ifd { name, entries })
}

// ─── The IFD chain ─────────────────────────────────────────────────────────

/// Name of the `index`-th IFD of the main chain: "IFD#<index>".
pub open spec fn ifd_name(index: nat) -> Seq<char> {
    "IFD#"@ + decimal(index)
}

/// Name of sub-IFD `si` of main IFD `index`: "IFD#<index>:Sub#<si>".
pub open spec fn sub_ifd_name(index: nat, si: nat) -> Seq<char> {
    "IFD#"@ + decimal(index) + ":Sub#"@ + decimal(si)
}

/// The readable sub-IFDs among `offs[si..]` (offsets that are 0, out of range
/// or unparsable are left out).
pub open spec fn spec_sub_ifds(d: Seq<u8>, bo: ByteOrder, offs: Seq<u32>, index: nat, si: nat) -> Seq<IfdV>
    decreases offs.len() - si,
{
    if si >= offs.len() {
        seq![]
    } else {
        let o = offs[si as int];
        let rest = spec_sub_ifds(d, bo, offs, index, si + 1);
        if o != 0 && o < d.len() && spec_parse_ifd(d, bo, o as int) is Some {
            seq![IfdV { name: sub_ifd_name(index, si), entries: spec_parse_ifd(d, bo, o as int).unwrap().0 }] + rest
        } else {
            rest
        }
    }
}

/// The MakerNote IFD held in EXIF tag 0x927C (an UNDEFINED value), if readable.
pub open spec fn spec_makernote_group(ex: Map<u16, IfdEntryV>, bo: ByteOrder) -> Seq<IfdV> {
    match spec_entries_get(ex, 0x927C) {
        Some(TagValueV::Undefined(bytes)) => match spec_parse_makernote(bytes, bo) {
            Ok(m) => seq![IfdV { name: "MakerNote"@, entries: m }],
            Err(_) => seq![],
        },
        _ => seq![],
    }
}

/// The EXIF IFD that a main IFD points to (tag 0x8769), followed by the
/// MakerNote IFD inside it, as far as each is readable.
pub open spec fn spec_exif_group(d: Seq<u8>, bo: ByteOrder, main: Map<u16, IfdEntryV>) -> Seq<IfdV> {
    match spec_entries_get(main, 0x8769) {
        Some(v) => match spec_as_u32(v) {
            Some(o) => if o != 0 && o < d.len() && spec_parse_ifd(d, bo, o as int) is Some {
                let ex = spec_parse_ifd(d, bo, o as int).unwrap().0;
                seq![IfdV { name: "EXIF"@, entries: ex }] + spec_makernote_group(ex, bo)
            } else {
                seq![]
            },
            None => seq![],
        },
        None => seq![],
    }
}

/// The IFDs contributed by main IFD `index` with entries `m`: itself, its
/// sub-IFDs, then its EXIF and MakerNote IFDs.
pub open spec fn spec_ifd_group(d: Seq<u8>, bo: ByteOrder, m: Map<u16, IfdEntryV>, index: nat) -> Seq<IfdV> {
    let offs = match spec_entries_get(m, 0x014A) {
        Some(v) => spec_as_u32_vec(v),
        None => Seq::empty(),
    };
    seq![IfdV { name: ifd_name(index), entries: m }] + spec_sub_ifds(d, bo, offs, index, 0)
        + spec_exif_group(d, bo, m)
}

/// All IFDs reached from the main-chain IFD at `offset` with number `index`:
/// the chain stops at offset 0, at an offset past the data, or after IFD#20;
/// an unreadable main-chain IFD makes the whole chain unreadable.
pub open spec fn spec_chain(d: Seq<u8>, bo: ByteOrder, offset: u32, index: nat) -> Option<Seq<IfdV>>
    decreases 21 - index,
{
    if index > 20 || offset == 0 || offset >= d.len() {
        Some(seq![])
    } else {
        match spec_parse_ifd(d, bo, offset as int) {
            None => None,
            Some((m, next)) => match spec_chain(d, bo, next, index + 1) {
                None => None,
                Some(rest) => Some(spec_ifd_group(d, bo, m, index) + rest),
            },
        }
    }
}

/// The error of the first main-chain IFD that cannot be read (meaningful
/// where `spec_chain` fails).
pub open spec fn spec_chain_error(d: Seq<u8>, bo: ByteOrder, offset: u32, index: nat) -> TiffError
    decreases 21 - index,
{
    if index > 20 || offset == 0 || offset >= d.len() {
        TiffError::UnexpectedEof
    } else {
        match spec_parse_ifd(d, bo, offset as int) {
            None => spec_ifd_error(d, bo, offset as int),
            Some((m, next)) => spec_chain_error(d, bo, next, index + 1),
        }
    }
}

pub open spec fn ifds_view(v: Seq<Ifd>) -> Seq<IfdV> {
    v.map_values(|i: Ifd| i@)
}

fn numbered_name(prefix: &str, n: usize) -> (s: String)
    ensures
        s@ == prefix@ + decimal(n as nat),
{
    let mut s = String::new();
    append_str(&mut s, prefix);
    let num = u64_decimal(n as u64);
    append_str(&mut s, num.as_str());
    s
}

/// Appends the readable sub-IFDs of main IFD `index` to `out`.
fn push_sub_ifds(d: &[u8], bo: ByteOrder, offs: &Vec<u32>, index: usize, out: &mut Vec<Ifd>)
    ensures
        ifds_view(final(out)@) == ifds_view(old(out)@) + spec_sub_ifds(d@, bo, offs@, index as nat, 0),
{
    let ghost start = ifds_view(out@);
    let mut si: usize = 0;
    while si < offs.len()
        invariant
            si <= offs@.len(),
            start + spec_sub_ifds(d@, bo, offs@, index as nat, 0)
                == ifds_view(out@) + spec_sub_ifds(d@, bo, offs@, index as nat, si as nat),
        decreases offs@.len() - si,
    {
        let o = offs[si];
        let ghost before = ifds_view(out@);
        if o != 0 && (o as usize) < d.len() {
            let mut name = numbered_name("IFD#", index);
            append_str(&mut name, ":Sub#");
            let num = u64_decimal(si as u64);
            append_str(&mut name, num.as_str());
            match parse_ifd(d, bo, o, name) {
                Ok((sub, _)) => {
                    out.push(sub);
                    assert(ifds_view(out@) =~= before.push(sub@));
                    assert(before + spec_sub_ifds(d@, bo, offs@, index as nat, si as nat)
                        =~= ifds_view(out@) + spec_sub_ifds(d@, bo, offs@, index as nat, (si + 1) as nat));
                },
                Err(_) => {},
            }
        }
        si = si + 1;
    }
}

fn makernote_of(exif: &Ifd, bo: ByteOrder) -> (r: Option<Ifd>)
    ensures
        spec_makernote_group(exif@.entries, bo) == (match r {
            Some(m) => seq![m@],
            None => Seq::<IfdV>::empty(),
        }),
{
    match exif.get(0x927C) {
        Some(TagValue::Undefined(bytes)) => match parse_makernote(bytes.as_slice(), bo) {
            Ok(m) => Some(m),
            Err(_) => None,
        },
        _ => None,
    }
}

/// The EXIF IFD of a main IFD, and the MakerNote inside it.
fn exif_group(d: &[u8], bo: ByteOrder, main: &Ifd) -> (r: Vec<Ifd>)
    ensures
        ifds_view(r@) == spec_exif_group(d@, bo, main@.entries),
{
    let mut out: Vec<Ifd> = Vec::new();
    let o = match main.get_u32(0x8769) {
        Some(o) => o,
        None => {
            assert(ifds_view(out@) =~= spec_exif_group(d@, bo, main@.entries));
            return out;
        },
    };
    if o == 0 || (o as usize) >= d.len() {
        assert(ifds_view(out@) =~= spec_exif_group(d@, bo, main@.entries));
        return out;
    }
    let mut name = String::new();
    append_str(&mut name, "EXIF");
    let exif = match parse_ifd(d, bo, o, name) {
        Ok((exif, _)) => exif,
        Err(_) => {
            assert(ifds_view(out@) =~= spec_exif_group(d@, bo, main@.entries));
            return out;
        },
    };
    let ghost ex = exif@;
    let mn = makernote_of(&exif, bo);
    out.push(exif);
    match mn {
        Some(m) => {
            out.push(m);
        },
        None => {},
    }
    assert(ifds_view(out@) =~= seq![ex] + spec_makernote_group(ex.entries, bo));
    out
}

/// Parses the main IFD chain starting at `first`.
#[verifier::rlimit(100)]
pub fn parse_chain(d: &[u8], bo: ByteOrder, first: u32) -> (r: Result<Vec<Ifd>, TiffError>)
    ensures
        r matches Ok(v) ==> spec_chain(d@, bo, first, 0) == Some(ifds_view(v@)),
        r is Err <==> spec_chain(d@, bo, first, 0) is None,
        r matches Err(e) ==> e == spec_chain_error(d@, bo, first, 0),
{
    let mut ifds: Vec<Ifd> = Vec::new();
    let mut offset = first;
    let mut index: usize = 0;
    assert(ifds_view(ifds@) =~= Seq::<IfdV>::empty());
    loop
        invariant
            index <= 20,
            spec_chain(d@, bo, first, 0) == (match spec_chain(d@, bo, offset, index as nat) {
                Some(rest) => Some(ifds_view(ifds@) + rest),
                None => None,
            }),
            spec_chain_error(d@, bo, first, 0) == spec_chain_error(d@, bo, offset, index as nat),
        decreases 21 - index,
    {
        if offset == 0 || (offset as usize) >= d.len() {
            assert(ifds_view(ifds@) + seq![] =~= ifds_view(ifds@));
            return Ok(ifds);
        }
        let name = numbered_name("IFD#", index);
        let (main, next) = match parse_ifd(d, bo, offset, name) {
            Ok(x) => x,
            Err(e) => {
                return Err(e);
            },
        };
        let ghost before = ifds_view(ifds@);
        let offs = match main.get(0x014A) {
            Some(v) => v.as_u32_vec(),
            None => Vec::new(),
        };
        assert(offs@ == (match spec_entries_get(main@.entries, 0x014A) {
            Some(v) => spec_as_u32_vec(v),
            None => Seq::<u32>::empty(),
        }));
        let ghost main_v = main@;
        let main_idx = ifds.len();
        ifds.push(main);
        assert(ifds_view(ifds@) =~= before.push(main_v));
        push_sub_ifds(d, bo, &offs, index, &mut ifds);
        assert(ifds_view(ifds@).len() == ifds@.len());
        assert(ifds_view(ifds@)[main_idx as int] == main_v);
        assert(ifds@[main_idx as int]@ == main_v);
        let main_ref = &ifds[main_idx];
        assert(main_ref@ == main_v);
        let mut tail = exif_group(d, bo, main_ref);
        let ghost mid = ifds_view(ifds@);
        ifds.append(&mut tail);
        assert(ifds_view(ifds@) =~= mid + spec_exif_group(d@, bo, main_v.entries));
        assert(ifds_view(ifds@) =~= before + spec_ifd_group(d@, bo, main_v.entries, index as nat));
        offset = next;
        index = index + 1;
        if index > 20 {
            assert(ifds_view(ifds@) + seq![] =~= ifds_view(ifds@));
            return Ok(ifds);
        }
    }
}

// ─── Embedded preview JPEG ─────────────────────────────────────────────────

/// `d[off..off + len]` is a non-empty in-bounds range starting with the JPEG SOI marker.
pub open spec fn jpeg_range(d: Seq<u8>, off: int, len: int) -> bool {
    len >= 2 && off + len <= d.len() && d[off] == 0xFF && d[off + 1] == 0xD8
}

/// Strategy 1: the first IFD from `i` on whose JPEGInterchangeFormat (0x0201)
/// and JPEGInterchangeFormatLength (0x0202) name a JPEG inside the data.
pub open spec fn spec_preview_interchange(d: Seq<u8>, ifds: Seq<IfdV>, i: nat) -> Option<Seq<u8>>
    decreases ifds.len() - i,
{
    if i >= ifds.len() {
        None
    } else {
        let o = spec_ifd_get_u32(ifds[i as int], 0x0201);
        let l = spec_ifd_get_u32(ifds[i as int], 0x0202);
        if o is Some && l is Some && jpeg_range(d, o.unwrap() as int, l.unwrap() as int) {
            Some(d.subrange(o.unwrap() as int, o.unwrap() + l.unwrap()))
        } else {
            spec_preview_interchange(d, ifds, i + 1)
        }
    }
}

/// Sum of a sequence of counts.
pub open spec fn sum_u32(s: Seq<u32>) -> nat
    decreases s.len(),
{
    if s.len() == 0 { 0 } else { sum_u32(s.drop_last()) + (s.last() as nat) }
}

/// Strategy 2: the first JPEG-compressed IFD (Compression 6 or 7) from `i` on
/// whose strips, read from the first strip offset with the total of all
/// strip byte counts, form a JPEG inside the data.
pub open spec fn spec_preview_strips(d: Seq<u8>, ifds: Seq<IfdV>, i: nat) -> Option<Seq<u8>>
    decreases ifds.len() - i,
{
    if i >= ifds.len() {
        None
    } else {
        let ifd = ifds[i as int];
        let comp = match spec_ifd_get_u32(ifd, 0x0103) { Some(c) => c, None => 1 };
        let offs = spec_ifd_get(ifd, 0x0111);
        let counts = spec_ifd_get(ifd, 0x0117);
        if (comp == 6 || comp == 7) && offs is Some && counts is Some
            && spec_as_u32_vec(offs.unwrap()).len() > 0 && spec_as_u32_vec(counts.unwrap()).len() > 0
            && jpeg_range(d, spec_as_u32_vec(offs.unwrap())[0] as int, sum_u32(spec_as_u32_vec(counts.unwrap())) as int) {
            let o = spec_as_u32_vec(offs.unwrap())[0] as int;
            Some(d.subrange(o, o + sum_u32(spec_as_u32_vec(counts.unwrap()))))
        } else {
            spec_preview_strips(d, ifds, i + 1)
        }
    }
}

/// A JPEG start (SOI followed by an APP0, APP1 or DQT marker) at `p`, at
/// least five bytes before the end.
pub open spec fn jpeg_start_at(d: Seq<u8>, p: int) -> bool {
    0 <= p && p + 4 < d.len() && d[p] == 0xFF && d[p + 1] == 0xD8 && d[p + 2] == 0xFF
        && (d[p + 3] == 0xE0 || d[p + 3] == 0xE1 || d[p + 3] == 0xDB)
}

/// An EOI marker at `e`.
pub open spec fn eoi_at(d: Seq<u8>, e: int) -> bool {
    0 <= e && e + 1 < d.len() && d[e] == 0xFF && d[e + 1] == 0xD9
}

/// `e` is the first EOI marker from `start + 2` on.
pub open spec fn first_eoi(d: Seq<u8>, start: int, e: int) -> bool {
    start + 2 <= e && eoi_at(d, e) && forall|q: int| start + 2 <= q < e ==> !eoi_at(d, q)
}

/// A complete embedded JPEG spans `d[p..e + 2]`.
pub open spec fn jpeg_span(d: Seq<u8>, p: int, e: int) -> bool {
    jpeg_start_at(d, p) && first_eoi(d, p, e)
}

/// The result of the embedded-JPEG scan: the largest complete embedded JPEG,
/// the earliest one among equally large ones; `None` when there is none.
pub open spec fn is_largest_embedded_jpeg(d: Seq<u8>, r: Option<Seq<u8>>) -> bool {
    match r {
        Some(bytes) => exists|p: int, e: int| {
            &&& jpeg_span(d, p, e)
            &&& bytes == d.subrange(p, e + 2)
            &&& forall|q: int, f: int| jpeg_span(d, q, f) ==> f - q <= e - p && (q < p ==> f - q < e - p)
        },
        None => forall|q: int, f: int| !jpeg_span(d, q, f),
    }
}

/// Position of the first EOI marker from `start + 2` on.
pub fn find_jpeg_end(d: &[u8], start: usize) -> (r: Option<usize>)
    ensures
        r matches Some(e) ==> first_eoi(d@, start as int, e as int),
        r is None ==> forall|q: int| start + 2 <= q ==> !eoi_at(d@, q),
{
    assert(d@.len() == d.len());
    if d.len() < 2 || start > d.len() - 2 {
        return None;
    }
    let mut pos = start + 2;
    while pos < d.len() && pos + 1 < d.len()
        invariant
            start + 2 <= pos,
            pos <= d@.len() + 2,
            d@.len() == d.len(),
            forall|q: int| start + 2 <= q < pos ==> !eoi_at(d@, q),
        decreases d@.len() + 2 - pos,
    {
        if d[pos] == 0xFF && d[pos + 1] == 0xD9 {
            return Some(pos);
        }
        pos = pos + 1;
    }
    None
}

proof fn lemma_first_eoi_unique(d: Seq<u8>, p: int, e: int, f: int)
    requires
        first_eoi(d, p, e),
        first_eoi(d, p, f),
    ensures
        e == f,
{
    if e < f {
        assert(!eoi_at(d, e));
    } else if f < e {
        assert(!eoi_at(d, f));
    }
}

/// Scans the whole data for embedded JPEG streams and returns the largest.
pub fn find_embedded_jpeg(d: &[u8]) -> (r: Option<Vec<u8>>)
    ensures
        is_largest_embedded_jpeg(d@, match r { Some(v) => Some(v@), None => None }),
{
    assert(d@.len() == d.len());
    let mut best: Option<(usize, usize)> = None;
    let mut pos: usize = 0;
    while d.len() >= 4 && pos < d.len() - 4
        invariant
            d@.len() == d.len(),
            pos <= d@.len(),
            best matches Some((bp, be)) ==> bp < pos && jpeg_span(d@, bp as int, be as int)
                && forall|q: int, f: int| 0 <= q < pos && jpeg_span(d@, q, f) ==> f - q <= be - bp && (q < bp ==> f - q < be - bp),
            best is None ==> forall|q: int, f: int| 0 <= q < pos ==> !jpeg_span(d@, q, f),
        decreases d@.len() - pos,
    {
        if d[pos] == 0xFF && d[pos + 1] == 0xD8 && d[pos + 2] == 0xFF
            && (d[pos + 3] == 0xE0 || d[pos + 3] == 0xE1 || d[pos + 3] == 0xDB) {
            match find_jpeg_end(d, pos) {
                Some(e) => {
                    let better = match best {
                        Some((bp, be)) => e - pos > be - bp,
                        None => true,
                    };
                    proof {
                        assert forall|f: int| jpeg_span(d@, pos as int, f) implies f == e by {
                            lemma_first_eoi_unique(d@, pos as int, e as int, f);
                        }
                    }
                    if better {
                        best = Some((pos, e));
                    }
                },
                None => {
                    assert forall|f: int| !jpeg_span(d@, pos as int, f) by {
                        if jpeg_span(d@, pos as int, f) {
                            assert(!eoi_at(d@, f));
                        }
                    }
                },
            }
        } else {
            assert forall|f: int| !jpeg_span(d@, pos as int, f) by {}
        }
        pos = pos + 1;
    }
    assert forall|q: int, f: int| pos <= q && jpeg_span(d@, q, f) implies false by {}
    match best {
        Some((bp, be)) => {
            let v = copy_bytes(d, bp, be + 2);
            assert(jpeg_span(d@, bp as int, be as int));
            Some(v)
        },
        None => None,
    }
}

fn sum_counts_bounded(counts: &Vec<u32>, bound: u64) -> (r: Option<u64>)
    ensures
        r matches Some(x) ==> x == sum_u32(counts@) && x <= bound,
        r is None ==> sum_u32(counts@) > bound,
{
    let mut acc: u64 = 0;
    let mut i: usize = 0;
    while i < counts.len()
        invariant
            i <= counts@.len(),
            acc == sum_u32(counts@.take(i as int)),
            acc <= bound,
        decreases counts@.len() - i,
    {
        assert(counts@.take(i + 1).drop_last() =~= counts@.take(i as int));
        if counts[i] as u64 > bound - acc {
            proof { lemma_sum_prefix_le(counts@, i + 1); }
            return None;
        }
        acc = acc + counts[i] as u64;
        i = i + 1;
    }
    assert(counts@.take(counts@.len() as int) =~= counts@);
    Some(acc)
}

proof fn lemma_sum_prefix_le(s: Seq<u32>, k: int)
    requires
        0 <= k <= s.len(),
    ensures
        sum_u32(s.take(k)) <= sum_u32(s),
    decreases s.len() - k,
{
    if k < s.len() {
        lemma_sum_prefix_le(s, k + 1);
        assert(s.take(k + 1).drop_last() =~= s.take(k));
    } else {
        assert(s.take(k) =~= s);
    }
}

/// Strategy 1 over `ifds[i..]`.
fn preview_interchange(d: &[u8], ifds: &Vec<Ifd>) -> (r: Option<Vec<u8>>)
    ensures
        (match r { Some(v) => Some(v@), None => None }) == spec_preview_interchange(d@, ifds_view(ifds@), 0),
{
    let ghost iv = ifds_view(ifds@);
    let mut i: usize = 0;
    while i < ifds.len()
        invariant
            i <= ifds@.len(),
            iv == ifds_view(ifds@),
            spec_preview_interchange(d@, iv, 0) == spec_preview_interchange(d@, iv, i as nat),
        decreases ifds@.len() - i,
    {
        assert(iv[i as int] == ifds@[i as int]@);
        let o = ifds[i].get_u32(0x0201);
        let l = ifds[i].get_u32(0x0202);
        if let (Some(o), Some(l)) = (o, l) {
            if l as u64 >= 2 && o as u64 + l as u64 <= d.len() as u64 && d[o as usize] == 0xFF && d[o as usize + 1] == 0xD8 {
                return Some(copy_bytes(d, o as usize, o as usize + l as usize));
            }
        }
        i = i + 1;
    }
    None
}

/// Strategy 2 over all IFDs.
fn preview_strips(d: &[u8], ifds: &Vec<Ifd>) -> (r: Option<Vec<u8>>)
    ensures
        (match r { Some(v) => Some(v@), None => None }) == spec_preview_strips(d@, ifds_view(ifds@), 0),
{
    let ghost iv = ifds_view(ifds@);
    let mut i: usize = 0;
    while i < ifds.len()
        invariant
            i <= ifds@.len(),
            iv == ifds_view(ifds@),
            spec_preview_strips(d@, iv, 0) == spec_preview_strips(d@, iv, i as nat),
        decreases ifds@.len() - i,
    {
        assert(iv[i as int] == ifds@[i as int]@);
        let ifd = &ifds[i];
        let comp = match ifd.get_u32(0x0103) { Some(c) => c, None => 1 };
        if comp == 6 || comp == 7 {
            if let (Some(ov), Some(cv)) = (ifd.get(0x0111), ifd.get(0x0117)) {
                let offs = ov.as_u32_vec();
                let counts = cv.as_u32_vec();
                if offs.len() > 0 && counts.len() > 0 {
                    let o = offs[0] as u64;
                    if let Some(c) = sum_counts_bounded(&counts, d.len() as u64) {
                        if c >= 2 && o <= d.len() as u64 && c <= d.len() as u64 - o && d[o as usize] == 0xFF && d[o as usize + 1] == 0xD8 {
                            return Some(copy_bytes(d, o as usize, (o + c) as usize));
                        }
                    }
                }
            }
        }
        i = i + 1;
    }
    None
}

/// The preview JPEG of a file: strategy 1, then strategy 2, then (only when
/// `scan_embedded` is set) the largest embedded JPEG stream.
pub open spec fn spec_preview(d: Seq<u8>, ifds: Seq<IfdV>, scan_embedded: bool, r: Option<Seq<u8>>) -> bool {
    if spec_preview_interchange(d, ifds, 0) is Some {
        r == spec_preview_interchange(d, ifds, 0)
    } else if spec_preview_strips(d, ifds, 0) is Some {
        r == spec_preview_strips(d, ifds, 0)
    } else if scan_embedded {
        is_largest_embedded_jpeg(d, r)
    } else {
        r is None
    }
}

/// Extracts the preview JPEG (see `spec_preview`).
pub fn extract_preview(d: &[u8], ifds: &Vec<Ifd>, scan_embedded: bool) -> (r: Option<Vec<u8>>)
    ensures
        spec_preview(d@, ifds_view(ifds@), scan_embedded, match r { Some(v) => Some(v@), None => None }),
{
    if let Some(v) = preview_interchange(d, ifds) {
        return Some(v);
    }
    if let Some(v) = preview_strips(d, ifds) {
        return Some(v);
    }
    if scan_embedded {
        return find_embedded_jpeg(d);
    }
    None
}

// ─── Files ─────────────────────────────────────────────────────────────────

/// A parsed TIFF/FFF file: byte order, magic number, every IFD reached
/// (main chain, sub-IFDs, EXIF, MakerNote), the preview JPEG if one was found,
/// and the file bytes.
#[derive(Debug, Clone)]
pub struct TiffFile {
    pub byte_order: ByteOrder,
    /// 0x2A for TIFF, 0x55 for Imacon FFF.
    pub magic: u16,
    pub ifds: Vec<Ifd>,
    pub preview_jpeg: Option<Vec<u8>>,
    /// The file bytes (emptied by `release_data`).
    pub data: Vec<u8>,
}

/// Byte order, magic number and first IFD offset of a file, or why the header is rejected.
pub open spec fn spec_header(d: Seq<u8>) -> Result<(ByteOrder, u16, u32), TiffError> {
    if d.len() < 8 {
        Err(TiffError::TooSmall)
    } else if !((d[0] == 0x49 && d[1] == 0x49) || (d[0] == 0x4D && d[1] == 0x4D)) {
        Err(TiffError::InvalidByteOrder(d[0], d[1]))
    } else {
        let bo = if d[0] == 0x49 { ByteOrder::LittleEndian } else { ByteOrder::BigEndian };
        let magic = spec_u16_at(d, 2, bo);
        if magic != 0x2A && magic != 0x55 {
            Err(TiffError::UnsupportedMagic(magic))
        } else {
            Ok((bo, magic, spec_u32_at(d, 4, bo)))
        }
    }
}

/// `r` is the outcome of parsing `d` (see `spec_header`, `spec_chain`, `spec_preview`).
pub open spec fn spec_parse_result(d: Seq<u8>, scan_embedded: bool, r: Result<TiffFile, TiffError>) -> bool {
    match spec_header(d) {
        Err(e) => r == Err::<TiffFile, TiffError>(e),
        Ok((bo, magic, first)) => match spec_chain(d, bo, first, 0) {
            None => r == Err::<TiffFile, TiffError>(spec_chain_error(d, bo, first, 0)),
            Some(ifds) => r matches Ok(t) && t.byte_order == bo && t.magic == magic
                && ifds_view(t.ifds@) == ifds && t.spec_data() == d
                && spec_preview(d, ifds, scan_embedded, match t.preview_jpeg { Some(v) => Some(v@), None => None }),
        },
    }
}

/// Where the value of `tag` is found first when the IFDs are searched in order.
pub open spec fn spec_find_tag(ifds: Seq<IfdV>, tag: u16, i: nat) -> Option<TagValueV>
    decreases ifds.len() - i,
{
    if i >= ifds.len() {
        None
    } else if spec_ifd_get(ifds[i as int], tag) is Some {
        spec_ifd_get(ifds[i as int], tag)
    } else {
        spec_find_tag(ifds, tag, i + 1)
    }
}

/// Width and height of the IFD with the most pixels (the first of equal ones);
/// (0, 0) when no IFD has both dimensions.
pub open spec fn spec_best_dimensions(ifds: Seq<IfdV>) -> (u32, u32)
    decreases ifds.len(),
{
    if ifds.len() == 0 {
        (0, 0)
    } else {
        let prev = spec_best_dimensions(ifds.drop_last());
        let w = match spec_ifd_get_u32(ifds.last(), 0x0100) { Some(x) => x, None => 0 };
        let h = match spec_ifd_get_u32(ifds.last(), 0x0101) { Some(x) => x, None => 0 };
        if w * h > prev.0 * prev.1 { (w, h) } else { prev }
    }
}

/// The XML text held in tag 0xC519 of the first IFD: a big-endian length
/// (clamped to the bytes present) followed by that many UTF-8 bytes.
pub open spec fn spec_settings_xml(ifds: Seq<IfdV>) -> Option<Seq<char>> {
    if ifds.len() == 0 {
        None
    } else {
        match spec_ifd_get(ifds[0], 0xC519) {
            Some(TagValueV::Byte(raw)) => spec_length_prefixed_text(raw),
            Some(TagValueV::Undefined(raw)) => spec_length_prefixed_text(raw),
            _ => None,
        }
    }
}

pub open spec fn spec_length_prefixed_text(raw: Seq<u8>) -> Option<Seq<char>> {
    if raw.len() < 4 {
        None
    } else {
        let n = spec_u32_at(raw, 0, ByteOrder::BigEndian) as int;
        let m = if n < raw.len() - 4 { n } else { raw.len() - 4 };
        let b = raw.subrange(4, 4 + m);
        if m == 0 || !valid_utf8(b) { None } else { Some(decode_utf8(b)) }
    }
}

impl TiffFile {
    pub open spec fn spec_data(&self) -> Seq<u8> {
        self.data@
    }

    /// Parses a TIFF/FFF byte stream. The last-resort scan of the whole file
    /// for embedded JPEG streams runs only when `scan_embedded` is set.
    pub fn parse_with_scan(d: &[u8], scan_embedded: bool) -> (r: Result<TiffFile, TiffError>)
        ensures
            spec_parse_result(d@, scan_embedded, r),
    {
        if d.len() < 8 {
            return Err(TiffError::TooSmall);
        }
        let bo = if d[0] == 0x49 && d[1] == 0x49 {
            ByteOrder::LittleEndian
        } else if d[0] == 0x4D && d[1] == 0x4D {
            ByteOrder::BigEndian
        } else {
            return Err(TiffError::InvalidByteOrder(d[0], d[1]));
        };
        let magic = read_u16_at(d, 2, bo);
        if magic != 0x2A && magic != 0x55 {
            return Err(TiffError::UnsupportedMagic(magic));
        }
        let first = read_u32_at(d, 4, bo);
        let ifds = match parse_chain(d, bo, first) {
            Ok(v) => v,
            Err(e) => return Err(e),
        };
        let preview_jpeg = extract_preview(d, &ifds, scan_embedded);
        let data = copy_bytes(d, 0, d.len());
        assert(data@ =~= d@);
        Ok(TiffFile { byte_order: bo, magic, ifds, preview_jpeg, data })
    }

    /// Parses a TIFF/FFF byte stream without the embedded-JPEG scan.
    pub fn parse(d: &[u8]) -> (r: Result<TiffFile, TiffError>)
        ensures
            spec_parse_result(d@, false, r),
    {
        Self::parse_with_scan(d, false)
    }

    /// Size of the file data in bytes.
    pub fn file_size(&self) -> (r: usize)
        ensures
            r == self.spec_data().len(),
    {
        self.data.len()
    }

    /// The file data.
    pub fn raw_data(&self) -> (r: &[u8])
        ensures
            r@ == self.spec_data(),
    {
        self.data.as_slice()
    }

    /// Drops the file data and the preview JPEG to free memory.
    pub fn release_data(&mut self)
        ensures
            final(self).spec_data() == Seq::<u8>::empty(),
            final(self).preview_jpeg is None,
            final(self).ifds@ == old(self).ifds@,
            final(self).byte_order == old(self).byte_order,
            final(self).magic == old(self).magic,
    {
        self.data = Vec::new();
        self.preview_jpeg = None;
    }

    /// The FlexColor settings XML of tag 0xC519 in the first IFD.
    pub fn settings_xml(&self) -> (r: Option<String>)
        ensures
            (match r { Some(s) => Some(s@), None => None }) == spec_settings_xml(ifds_view(self.ifds@)),
    {
        if self.ifds.len() == 0 {
            return None;
        }
        assert(ifds_view(self.ifds@)[0] == self.ifds@[0]@);
        let raw = match self.ifds[0].get(0xC519) {
            Some(TagValue::Byte(raw)) => raw,
            Some(TagValue::Undefined(raw)) => raw,
            _ => { return None; },
        };
        if raw.len() < 4 {
            return None;
        }
        let n = read_u32_at(raw.as_slice(), 0, ByteOrder::BigEndian) as usize;
        let m = if n < raw.len() - 4 { n } else { raw.len() - 4 };
        if m == 0 {
            return None;
        }
        let bytes = copy_bytes(raw.as_slice(), 4, 4 + m);
        string_from_utf8(bytes.as_slice())
    }

    /// The first value of `tag` when the IFDs are searched in order.
    pub fn find_tag_value(&self, tag: u16) -> (r: Option<&TagValue>)
        ensures
            (match r { Some(v) => Some(v@), None => None }) == spec_find_tag(ifds_view(self.ifds@), tag, 0),
    {
        let ghost iv = ifds_view(self.ifds@);
        let mut i: usize = 0;
        while i < self.ifds.len()
            invariant
                i <= self.ifds@.len(),
                iv == ifds_view(self.ifds@),
                spec_find_tag(iv, tag, 0) == spec_find_tag(iv, tag, i as nat),
            decreases self.ifds@.len() - i,
        {
            assert(iv[i as int] == self.ifds@[i as int]@);
            if let Some(v) = self.ifds[i].get(tag) {
                return Some(v);
            }
            i = i + 1;
        }
        None
    }

    /// `find_tag_value` as `u32`.
    pub fn find_tag_u32(&self, tag: u16) -> (r: Option<u32>)
        ensures
            r == (match spec_find_tag(ifds_view(self.ifds@), tag, 0) { Some(v) => spec_as_u32(v), None => None }),
    {
        match self.find_tag_value(tag) {
            Some(v) => v.as_u32(),
            None => None,
        }
    }

    /// `find_tag_value` as text.
    pub fn find_tag_string(&self, tag: u16) -> (r: Option<String>)
        ensures
            r matches Some(s) ==> spec_find_tag(ifds_view(self.ifds@), tag, 0) == Some(TagValueV::Ascii(s@)),
            r is None <==> !(spec_find_tag(ifds_view(self.ifds@), tag, 0) matches Some(v) && v is Ascii),
    {
        match self.find_tag_value(tag) {
            Some(v) => v.as_string(),
            None => None,
        }
    }

    /// Dimensions of the IFD with the most pixels.
    pub fn best_dimensions(&self) -> (r: (u32, u32))
        ensures
            r == spec_best_dimensions(ifds_view(self.ifds@)),
    {
        let ghost iv = ifds_view(self.ifds@);
        let mut best_w: u32 = 0;
        let mut best_h: u32 = 0;
        let mut i: usize = 0;
        while i < self.ifds.len()
            invariant
                i <= self.ifds@.len(),
                iv == ifds_view(self.ifds@),
                (best_w, best_h) == spec_best_dimensions(iv.take(i as int)),
            decreases self.ifds@.len() - i,
        {
            assert(iv.take(i + 1).drop_last() =~= iv.take(i as int));
            assert(iv.take(i + 1).last() == self.ifds@[i as int]@);
            let w = match self.ifds[i].get_u32(0x0100) { Some(x) => x, None => 0 };
            let h = match self.ifds[i].get_u32(0x0101) { Some(x) => x, None => 0 };
            let p = mul_u32(w, h);
            let q = mul_u32(best_w, best_h);
            if p > q {
                best_w = w;
                best_h = h;
            }
            i = i + 1;
        }
        assert(iv.take(self.ifds@.len() as int) =~= iv);
        (best_w, best_h)
    }
}

pub(crate) fn mul_u32(a: u32, b: u32) -> (r: u64)
    ensures
        r == a * b,
{
    assert(a * b <= 0xFFFF_FFFF * 0xFFFF_FFFF) by (nonlinear_arith)
        requires
            a <= 0xFFFF_FFFF,
            b <= 0xFFFF_FFFF,
    ;
    a as u64 * b as u64
}

// ─── Uncompressed RGB pixels ───────────────────────────────────────────────

/// Interleaved RGB samples of 8 or 16 bits.
#[derive(Debug, Clone)]
pub enum PixelData {
    Rgb8(Vec<u8>),
    Rgb16(Vec<u16>),
}

/// An RGB image: dimensions and interleaved samples (3 per pixel, row by row).
#[derive(Debug, Clone)]
pub struct RgbPixels {
    pub width: u32,
    pub height: u32,
    pub data: PixelData,
}

/// Model of `PixelData`.
pub enum PixelDataV {
    Rgb8(Seq<u8>),
    Rgb16(Seq<u16>),
}

/// Model of `RgbPixels`.
pub struct RgbPixelsV {
    pub width: u32,
    pub height: u32,
    pub data: PixelDataV,
}

impl View for RgbPixels {
    type V = RgbPixelsV;

    open spec fn view(&self) -> RgbPixelsV {
        RgbPixelsV {
            width: self.width,
            height: self.height,
            data: match &self.data {
                PixelData::Rgb8(v) => PixelDataV::Rgb8(v@),
                PixelData::Rgb16(v) => PixelDataV::Rgb16(v@),
            },
        }
    }
}

pub open spec fn u32_or(v: Option<u32>, dflt: u32) -> u32 {
    match v { Some(x) => x, None => dflt }
}

/// An IFD holding an uncompressed RGB image: Compression 1 (default 1),
/// PhotometricInterpretation 2 (default 0), SamplesPerPixel at least 3
/// (default 1), and non-zero width and height.
pub open spec fn spec_is_rgb_candidate(ifd: IfdV) -> bool {
    u32_or(spec_ifd_get_u32(ifd, 0x0103), 1) == 1 && u32_or(spec_ifd_get_u32(ifd, 0x0106), 0) == 2
        && u32_or(spec_ifd_get_u32(ifd, 0x0115), 1) >= 3 && u32_or(spec_ifd_get_u32(ifd, 0x0100), 0) > 0
        && u32_or(spec_ifd_get_u32(ifd, 0x0101), 0) > 0
}

/// Pixel count of an IFD (width × height, missing dimensions count as 0).
pub open spec fn spec_pixels(ifd: IfdV) -> int {
    u32_or(spec_ifd_get_u32(ifd, 0x0100), 0) * u32_or(spec_ifd_get_u32(ifd, 0x0101), 0)
}

/// A reduced-resolution image (NewSubfileType 1).
pub open spec fn spec_is_thumb(ifd: IfdV) -> bool {
    u32_or(spec_ifd_get_u32(ifd, 0x00FE), 0) == 1
}

/// The bytes of the strips `offs[..k]`/`counts[..k]`, skipping strips that
/// run past the end of the data.
pub open spec fn spec_strip_bytes(d: Seq<u8>, offs: Seq<u32>, counts: Seq<u32>, k: nat) -> Seq<u8>
    decreases k,
{
    if k == 0 {
        seq![]
    } else {
        let prev = spec_strip_bytes(d, offs, counts, (k - 1) as nat);
        let o = offs[k - 1] as int;
        let c = counts[k - 1] as int;
        if o + c <= d.len() { prev + d.subrange(o, o + c) } else { prev }
    }
}

/// The uncompressed RGB image of an IFD: strips concatenated (pairs of
/// StripOffsets and StripByteCounts), 8-bit samples taken as they are, 16-bit
/// samples in the file's byte order; `None` when a needed tag is missing, the
/// strip lists are empty, the data is too short, or the sample size is
/// neither 8 nor 16 bits (default 8).
pub open spec fn spec_decode_rgb(d: Seq<u8>, bo: ByteOrder, ifd: IfdV) -> Option<RgbPixelsV> {
    let w = spec_ifd_get_u32(ifd, 0x0100);
    let h = spec_ifd_get_u32(ifd, 0x0101);
    let bps = u32_or(spec_ifd_get_u32(ifd, 0x0102), 8);
    let ov = spec_ifd_get(ifd, 0x0111);
    let cv = spec_ifd_get(ifd, 0x0117);
    if w is None || h is None || ov is None || cv is None {
        None
    } else {
        let offs = spec_as_u32_vec(ov.unwrap());
        let counts = spec_as_u32_vec(cv.unwrap());
        let k = if offs.len() < counts.len() { offs.len() } else { counts.len() };
        let px = spec_strip_bytes(d, offs, counts, k);
        let n = w.unwrap() * h.unwrap() * 3;
        if offs.len() == 0 || counts.len() == 0 {
            None
        } else if bps == 8 && px.len() >= n {
            Some(RgbPixelsV { width: w.unwrap(), height: h.unwrap(), data: PixelDataV::Rgb8(px.take(n)) })
        } else if bps == 16 && px.len() >= 2 * n {
            Some(RgbPixelsV {
                width: w.unwrap(),
                height: h.unwrap(),
                data: PixelDataV::Rgb16(Seq::new(n as nat, |i: int| spec_u16_at(px, 2 * i, bo))),
            })
        } else {
            None
        }
    }
}

/// The image data of an IFD: its strips, in order, concatenated.
pub open spec fn image_strip_data(d: Seq<u8>, ifd: IfdV) -> Seq<u8> {
    let offs = spec_as_u32_vec(spec_ifd_get(ifd, 0x0111).unwrap());
    let counts = spec_as_u32_vec(spec_ifd_get(ifd, 0x0117).unwrap());
    spec_strip_bytes(d, offs, counts, if offs.len() < counts.len() { offs.len() } else { counts.len() })
}

/// A decoded image has three samples per pixel, taken from the strip data:
/// 8-bit samples are its bytes, and 16-bit sample `i` is the byte pair at
/// `2i`, the first byte low in a little-endian file and high in a
/// big-endian one.
pub proof fn lemma_decoded_samples(d: Seq<u8>, bo: ByteOrder, ifd: IfdV)
    requires
        spec_decode_rgb(d, bo, ifd) is Some,
    ensures
        ({
            let p = spec_decode_rgb(d, bo, ifd).unwrap();
            let px = image_strip_data(d, ifd);
            let n = p.width * p.height * 3;
            &&& spec_ifd_get_u32(ifd, 0x0100) == Some(p.width)
            &&& spec_ifd_get_u32(ifd, 0x0101) == Some(p.height)
            &&& match p.data {
                PixelDataV::Rgb8(s) => {
                    &&& s.len() == n
                    &&& forall|i: int| 0 <= i < n ==> #[trigger] s[i] == px[i]
                },
                PixelDataV::Rgb16(s) => {
                    &&& s.len() == n
                    &&& 2 * n <= px.len()
                    &&& bo == ByteOrder::LittleEndian ==> forall|i: int|
                        0 <= i < n ==> #[trigger] s[i] == px[2 * i] + 256 * px[2 * i + 1]
                    &&& bo == ByteOrder::BigEndian ==> forall|i: int|
                        0 <= i < n ==> #[trigger] s[i] == 256 * px[2 * i] + px[2 * i + 1]
                },
            }
        }),
{
    let p = spec_decode_rgb(d, bo, ifd).unwrap();
    let px = image_strip_data(d, ifd);
    let n = p.width * p.height * 3;
    match p.data {
        PixelDataV::Rgb8(s) => {},
        PixelDataV::Rgb16(s) => {
            assert forall|i: int| 0 <= i < n implies #[trigger] s[i] == (if bo == ByteOrder::LittleEndian {
                px[2 * i] + 256 * px[2 * i + 1]
            } else {
                256 * px[2 * i] + px[2 * i + 1]
            }) by {
                lemma_u16_bytes(px, 2 * i);
            }
        },
    }
}

/// An image stored in one strip at offset `o` takes its samples from the
/// file bytes from `o` on.
pub proof fn lemma_single_strip_samples(d: Seq<u8>, bo: ByteOrder, ifd: IfdV, o: u32, c: u32)
    requires
        spec_decode_rgb(d, bo, ifd) is Some,
        spec_as_u32_vec(spec_ifd_get(ifd, 0x0111).unwrap()) == seq![o],
        spec_as_u32_vec(spec_ifd_get(ifd, 0x0117).unwrap()) == seq![c],
        o + c <= d.len(),
    ensures
        image_strip_data(d, ifd) == d.subrange(o as int, o + c),
{
    let offs = seq![o];
    let counts = seq![c];
    assert(spec_strip_bytes(d, offs, counts, 0) == Seq::<u8>::empty());
    assert(Seq::<u8>::empty() + d.subrange(o as int, o + c) =~= d.subrange(o as int, o + c));
}

fn strip_bytes(d: &[u8], offs: &Vec<u32>, counts: &Vec<u32>) -> (r: Vec<u8>)
    ensures
        r@ == spec_strip_bytes(d@, offs@, counts@, if offs@.len() < counts@.len() { offs@.len() } else { counts@.len() }),
{
    let k = if offs.len() < counts.len() { offs.len() } else { counts.len() };
    let mut out: Vec<u8> = Vec::new();
    let mut i: usize = 0;
    while i < k
        invariant
            i <= k,
            k <= offs@.len(),
            k <= counts@.len(),
            out@ == spec_strip_bytes(d@, offs@, counts@, i as nat),
        decreases k - i,
    {
        let o = offs[i] as u64;
        let c = counts[i] as u64;
        if o + c <= d.len() as u64 {
            let mut piece = copy_bytes(d, o as usize, (o + c) as usize);
            out.append(&mut piece);
        }
        i = i + 1;
    }
    out
}

/// Decodes the uncompressed RGB image of `ifd` from the file data.
pub fn decode_uncompressed_rgb(d: &[u8], bo: ByteOrder, ifd: &Ifd) -> (r: Option<RgbPixels>)
    ensures
        (match r { Some(p) => Some(p@), None => None }) == spec_decode_rgb(d@, bo, ifd@),
{
    let w = match ifd.get_u32(0x0100) { Some(x) => x, None => { return None; } };
    let h = match ifd.get_u32(0x0101) { Some(x) => x, None => { return None; } };
    let bps = match ifd.get_u32(0x0102) { Some(x) => x, None => 8 };
    let ov = match ifd.get(0x0111) { Some(v) => v, None => { return None; } };
    let cv = match ifd.get(0x0117) { Some(v) => v, None => { return None; } };
    let offs = ov.as_u32_vec();
    let counts = cv.as_u32_vec();
    if offs.len() == 0 || counts.len() == 0 {
        return None;
    }
    let px = strip_bytes(d, &offs, &counts);
    assert(w * h * 3 <= 3 * 0xFFFF_FFFF * 0xFFFF_FFFF) by (nonlinear_arith)
        requires
            w <= 0xFFFF_FFFF,
            h <= 0xFFFF_FFFF,
    ;
    let n: u128 = w as u128 * h as u128 * 3;
    if bps == 8 {
        if px.len() as u128 >= n {
            let data = copy_bytes(px.as_slice(), 0, n as usize);
            assert(data@ =~= px@.take(n as int));
            return Some(RgbPixels { width: w, height: h, data: PixelData::Rgb8(data) });
        }
    } else if bps == 16 {
        if px.len() as u128 >= 2 * n {
            let data = read_u16s(px.as_slice(), 0, n as usize, bo);
            assert(data@ =~= Seq::new(n as nat, |i: int| spec_u16_at(px@, 2 * i, bo)));
            return Some(RgbPixels { width: w, height: h, data: PixelData::Rgb16(data) });
        }
    }
    None
}

/// `a` comes before `b` in the order "most pixels first, then lower index".
pub open spec fn largest_first(ifds: Seq<IfdV>, a: int, b: int) -> bool {
    spec_pixels(ifds[a]) > spec_pixels(ifds[b]) || (spec_pixels(ifds[a]) == spec_pixels(ifds[b]) && a < b)
}

/// `a` comes before `b` in the order "reduced-resolution images first, then
/// fewest pixels, then lower index".
pub open spec fn thumbnails_first(ifds: Seq<IfdV>, a: int, b: int) -> bool {
    (spec_is_thumb(ifds[a]) && !spec_is_thumb(ifds[b]))
        || (spec_is_thumb(ifds[a]) == spec_is_thumb(ifds[b]) && (spec_pixels(ifds[a]) < spec_pixels(ifds[b])
            || (spec_pixels(ifds[a]) == spec_pixels(ifds[b]) && a < b)))
}

pub open spec fn precedes(ifds: Seq<IfdV>, thumbs: bool, a: int, b: int) -> bool {
    if thumbs { thumbnails_first(ifds, a, b) } else { largest_first(ifds, a, b) }
}

/// `r` is the image of the first candidate IFD, in the given order, that
/// decodes; `None` when none decodes.
pub open spec fn first_decodable(d: Seq<u8>, bo: ByteOrder, ifds: Seq<IfdV>, thumbs: bool, r: Option<RgbPixelsV>) -> bool {
    match r {
        Some(p) => exists|c: int| {
            &&& 0 <= c < ifds.len()
            &&& spec_is_rgb_candidate(ifds[c])
            &&& spec_decode_rgb(d, bo, ifds[c]) == Some(p)
            &&& forall|e: int| 0 <= e < ifds.len() && spec_is_rgb_candidate(ifds[e]) && precedes(ifds, thumbs, e, c)
                ==> spec_decode_rgb(d, bo, ifds[e]) is None
        },
        None => forall|e: int| 0 <= e < ifds.len() && spec_is_rgb_candidate(ifds[e]) ==> spec_decode_rgb(d, bo, ifds[e]) is None,
    }
}

struct CandInfo {
    cand: bool,
    pixels: u64,
    thumb: bool,
}

fn cand_info(ifd: &Ifd) -> (r: CandInfo)
    ensures
        r.cand == spec_is_rgb_candidate(ifd@),
        r.pixels == spec_pixels(ifd@),
        r.thumb == spec_is_thumb(ifd@),
{
    let w = match ifd.get_u32(0x0100) { Some(x) => x, None => 0 };
    let h = match ifd.get_u32(0x0101) { Some(x) => x, None => 0 };
    let comp = match ifd.get_u32(0x0103) { Some(x) => x, None => 1 };
    let phot = match ifd.get_u32(0x0106) { Some(x) => x, None => 0 };
    let spp = match ifd.get_u32(0x0115) { Some(x) => x, None => 1 };
    let sub = match ifd.get_u32(0x00FE) { Some(x) => x, None => 0 };
    CandInfo {
        cand: comp == 1 && phot == 2 && spp >= 3 && w > 0 && h > 0,
        pixels: mul_u32(w, h),
        thumb: sub == 1,
    }
}

fn precedes_exec(infos: &Vec<CandInfo>, thumbs: bool, a: usize, b: usize) -> (r: bool)
    requires
        a < infos@.len(),
        b < infos@.len(),
    ensures
        r == (if thumbs {
            (infos@[a as int].thumb && !infos@[b as int].thumb) || (infos@[a as int].thumb == infos@[b as int].thumb
                && (infos@[a as int].pixels < infos@[b as int].pixels
                || (infos@[a as int].pixels == infos@[b as int].pixels && a < b)))
        } else {
            infos@[a as int].pixels > infos@[b as int].pixels || (infos@[a as int].pixels == infos@[b as int].pixels && a < b)
        }),
{
    let x = &infos[a];
    let y = &infos[b];
    if thumbs {
        (x.thumb && !y.thumb) || (x.thumb == y.thumb && (x.pixels < y.pixels || (x.pixels == y.pixels && a < b)))
    } else {
        x.pixels > y.pixels || (x.pixels == y.pixels && a < b)
    }
}

proof fn lemma_precedes_transitive(iv: Seq<IfdV>, thumbs: bool, a: int, b: int, c: int)
    requires
        precedes(iv, thumbs, a, b),
        precedes(iv, thumbs, b, c),
    ensures
        precedes(iv, thumbs, a, c),
{
}

proof fn lemma_precedes_total(iv: Seq<IfdV>, thumbs: bool, a: int, b: int)
    requires
        a != b,
    ensures
        precedes(iv, thumbs, a, b) || precedes(iv, thumbs, b, a),
{
}

/// Decodes the first candidate IFD, in the given order, whose uncompressed
/// RGB image decodes. IFDs are tried in that order and decoding stops at the
/// first success.
pub fn decode_first_in_order(d: &[u8], bo: ByteOrder, ifds: &Vec<Ifd>, thumbs: bool) -> (r: Option<RgbPixels>)
    ensures
        first_decodable(d@, bo, ifds_view(ifds@), thumbs, match r { Some(p) => Some(p@), None => None }),
{
    let ghost iv = ifds_view(ifds@);
    let mut infos: Vec<CandInfo> = Vec::new();
    let mut remaining: Vec<usize> = Vec::new();
    let mut i: usize = 0;
    while i < ifds.len()
        invariant
            i <= ifds@.len(),
            iv == ifds_view(ifds@),
            infos@.len() == i,
            forall|k: int| 0 <= k < i ==> (#[trigger] infos@[k]).cand == spec_is_rgb_candidate(iv[k])
                && infos@[k].pixels == spec_pixels(iv[k]) && infos@[k].thumb == spec_is_thumb(iv[k]),
            forall|k: int| 0 <= k < remaining@.len() ==> 0 <= #[trigger] remaining@[k] < i && spec_is_rgb_candidate(iv[remaining@[k] as int]),
            forall|k1: int, k2: int| 0 <= k1 < k2 < remaining@.len() ==> remaining@[k1] < remaining@[k2],
            forall|c: int| 0 <= c < i && spec_is_rgb_candidate(iv[c]) ==> #[trigger] remaining@.contains(c as usize),
        decreases ifds@.len() - i,
    {
        assert(iv[i as int] == ifds@[i as int]@);
        let info = cand_info(&ifds[i]);
        let is_cand = info.cand;
        infos.push(info);
        let ghost old_rem = remaining@;
        if is_cand {
            remaining.push(i);
        }
        assert forall|c: int| 0 <= c < i + 1 && spec_is_rgb_candidate(iv[c]) implies #[trigger] remaining@.contains(c as usize) by {
            if c < i {
                assert(old_rem.contains(c as usize));
                let k = choose|k: int| 0 <= k < old_rem.len() && old_rem[k] == c as usize;
                assert(remaining@[k] == old_rem[k]);
                assert(remaining@[k] == c as usize);
            } else {
                assert(remaining@[remaining@.len() - 1] == c as usize);
            }
        }
        i = i + 1;
    }
    loop
        invariant
            iv == ifds_view(ifds@),
            infos@.len() == ifds@.len(),
            forall|k: int| 0 <= k < ifds@.len() ==> (#[trigger] infos@[k]).cand == spec_is_rgb_candidate(iv[k])
                && infos@[k].pixels == spec_pixels(iv[k]) && infos@[k].thumb == spec_is_thumb(iv[k]),
            forall|k: int| 0 <= k < remaining@.len() ==> 0 <= #[trigger] remaining@[k] < ifds@.len() && spec_is_rgb_candidate(iv[remaining@[k] as int]),
            forall|k1: int, k2: int| 0 <= k1 < k2 < remaining@.len() ==> remaining@[k1] < remaining@[k2],
            forall|c: int| 0 <= c < ifds@.len() && spec_is_rgb_candidate(iv[c]) ==>
                #[trigger] remaining@.contains(c as usize) || spec_decode_rgb(d@, bo, iv[c]) is None,
        decreases remaining@.len(),
    {
        if remaining.len() == 0 {
            assert forall|e: int| 0 <= e < iv.len() && spec_is_rgb_candidate(iv[e]) implies spec_decode_rgb(d@, bo, iv[e]) is None by {
                assert(!remaining@.contains(e as usize));
            }
            return None;
        }
        // The earliest remaining candidate in the order.
        let mut m: usize = 0;
        let mut j: usize = 1;
        while j < remaining.len()
            invariant
                1 <= j <= remaining@.len(),
                m < j,
                infos@.len() == ifds@.len(),
                forall|k: int| 0 <= k < remaining@.len() ==> 0 <= #[trigger] remaining@[k] < ifds@.len(),
                forall|k1: int, k2: int| 0 <= k1 < k2 < remaining@.len() ==> remaining@[k1] < remaining@[k2],
                forall|k: int| 0 <= k < j && k != m ==> precedes(iv, thumbs, remaining@[m as int] as int, #[trigger] remaining@[k] as int),
                forall|k: int| 0 <= k < ifds@.len() ==> (#[trigger] infos@[k]).cand == spec_is_rgb_candidate(iv[k])
                    && infos@[k].pixels == spec_pixels(iv[k]) && infos@[k].thumb == spec_is_thumb(iv[k]),
            decreases remaining@.len() - j,
        {
            let a = remaining[j];
            let b = remaining[m];
            let ghost _ia = infos@[a as int];
            let ghost _ib = infos@[b as int];
            let earlier = precedes_exec(&infos, thumbs, a, b);
            assert(earlier == precedes(iv, thumbs, a as int, b as int));
            if earlier {
                proof {
                    assert forall|k: int| 0 <= k < j + 1 && k != j implies precedes(iv, thumbs, a as int, #[trigger] remaining@[k] as int) by {
                        if k != m {
                            lemma_precedes_transitive(iv, thumbs, a as int, b as int, remaining@[k] as int);
                        }
                    }
                }
                m = j;
            } else {
                proof {
                    assert(remaining@[m as int] < remaining@[j as int] || remaining@[j as int] < remaining@[m as int]);
                    lemma_precedes_total(iv, thumbs, a as int, b as int);
                }
            }
            j = j + 1;
        }
        let c = remaining[m];
        assert(iv[c as int] == ifds@[c as int]@);
        let ghost before = remaining@;
        assert(before[m as int] == c);
        assert(forall|k: int| 0 <= k < before.len() && k != m ==> precedes(iv, thumbs, c as int, #[trigger] before[k] as int));
        remaining.remove(m);
        match decode_uncompressed_rgb(d, bo, &ifds[c]) {
            Some(p) => {
                assert forall|e: int| 0 <= e < iv.len() && spec_is_rgb_candidate(iv[e]) && precedes(iv, thumbs, e, c as int)
                    implies spec_decode_rgb(d@, bo, iv[e]) is None by {
                    if before.contains(e as usize) {
                        let k = choose|k: int| 0 <= k < before.len() && before[k] == e as usize;
                        assert(0 <= k < before.len() && before[k] == e as usize);
                        assert(iv.len() == ifds@.len() && ifds@.len() == ifds.len());
                        assert(before[k] as int == e);
                        if k != m {
                            assert(precedes(iv, thumbs, c as int, before[k] as int));
                            assert(false);
                        } else {
                            assert(e == c);
                            assert(false);
                        }
                    } else {
                        assert(spec_decode_rgb(d@, bo, iv[e]) is None);
                    }
                }
                return Some(p);
            },
            None => {
                assert forall|e: int| 0 <= e < ifds@.len() && spec_is_rgb_candidate(iv[e]) implies
                    #[trigger] remaining@.contains(e as usize) || spec_decode_rgb(d@, bo, iv[e]) is None by {
                    if e != c && before.contains(e as usize) {
                        let k = choose|k: int| 0 <= k < before.len() && before[k] == e as usize;
                        assert(0 <= k < before.len() && before[k] == e as usize);
                        assert(ifds@.len() == ifds.len());
                        assert(before[k] as int == e);
                        assert(k != m);
                        if k < m {
                            assert(remaining@[k] == e as usize);
                        } else {
                            assert(remaining@[k - 1] == e as usize);
                        }
                    }
                }
            },
        }
    }
}

/// `c` is the candidate with the most pixels (the first of equally large ones).
pub open spec fn is_largest_candidate(ifds: Seq<IfdV>, c: int) -> bool {
    0 <= c < ifds.len() && spec_is_rgb_candidate(ifds[c])
        && forall|e: int| 0 <= e < ifds.len() && spec_is_rgb_candidate(ifds[e]) ==> !largest_first(ifds, e, c)
}

/// Index of the candidate with the most pixels.
pub(crate) fn largest_candidate(ifds: &Vec<Ifd>) -> (r: Option<usize>)
    ensures
        r matches Some(c) ==> is_largest_candidate(ifds_view(ifds@), c as int),
        r is None ==> forall|e: int| 0 <= e < ifds@.len() ==> !spec_is_rgb_candidate(#[trigger] ifds_view(ifds@)[e]),
{
    let ghost iv = ifds_view(ifds@);
    let mut best: Option<(usize, u64)> = None;
    let mut i: usize = 0;
    while i < ifds.len()
        invariant
            i <= ifds@.len(),
            iv == ifds_view(ifds@),
            best matches Some((b, p)) ==> b < i && spec_is_rgb_candidate(iv[b as int]) && p == spec_pixels(iv[b as int])
                && forall|e: int| 0 <= e < i && spec_is_rgb_candidate(iv[e]) ==> !largest_first(iv, e, b as int),
            best is None ==> forall|e: int| 0 <= e < i ==> !spec_is_rgb_candidate(#[trigger] iv[e]),
        decreases ifds@.len() - i,
    {
        assert(iv[i as int] == ifds@[i as int]@);
        let info = cand_info(&ifds[i]);
        let ghost old_best = best;
        if info.cand {
            let better = match best {
                Some((_, p)) => info.pixels > p,
                None => true,
            };
            if better {
                best = Some((i, info.pixels));
            }
        }
        proof {
            if let Some((b, p)) = best {
                assert forall|e: int| 0 <= e < i + 1 && spec_is_rgb_candidate(iv[e]) implies !largest_first(iv, e, b as int) by {
                    if e < i {
                        if let Some((ob, op)) = old_best {
                            assert(!largest_first(iv, e, ob as int));
                        }
                    }
                }
            }
        }
        i = i + 1;
    }
    match best {
        Some((b, _)) => Some(b),
        None => None,
    }
}

/// The bits per sample of an IFD (default 8).
pub open spec fn spec_bps(ifd: IfdV) -> u32 {
    u32_or(spec_ifd_get_u32(ifd, 0x0102), 8)
}

/// The 8-bit reduced-resolution image and the 16-bit full-resolution IFD of
/// the same size that is not the largest image: `(thumb, preview)` indices.
pub open spec fn spec_thumbnail_pair(ifds: Seq<IfdV>, t: int, p: int) -> bool {
    &&& 0 <= t < ifds.len()
    &&& spec_is_rgb_candidate(ifds[t]) && spec_is_thumb(ifds[t]) && spec_bps(ifds[t]) == 8
    &&& forall|e: int| 0 <= e < t && spec_is_rgb_candidate(ifds[e]) ==> !(spec_is_thumb(ifds[e]) && spec_bps(ifds[e]) == 8)
    &&& 0 <= p < ifds.len()
    &&& pair_preview_ok(ifds, t, p)
    &&& forall|e: int| 0 <= e < p ==> !pair_preview_ok(ifds, t, e)
}

/// `p` qualifies as the 16-bit counterpart of thumbnail `t`.
pub open spec fn pair_preview_ok(ifds: Seq<IfdV>, t: int, p: int) -> bool {
    &&& spec_is_rgb_candidate(ifds[p])
    &&& spec_bps(ifds[p]) == 16
    &&& u32_or(spec_ifd_get_u32(ifds[p], 0x00FE), 0) == 0
    &&& (exists|e: int| 0 <= e < ifds.len() && spec_is_rgb_candidate(ifds[e]) && spec_pixels(ifds[e]) > spec_pixels(ifds[p]))
    &&& spec_ifd_get_u32(ifds[p], 0x0100) == spec_ifd_get_u32(ifds[t], 0x0100)
    &&& spec_ifd_get_u32(ifds[p], 0x0101) == spec_ifd_get_u32(ifds[t], 0x0101)
}

impl TiffFile {
    /// Decodes the uncompressed RGB image of `ifd` from this file's data.
    pub fn decode_uncompressed_rgb(&self, ifd: &Ifd) -> (r: Option<RgbPixels>)
        ensures
            (match r { Some(p) => Some(p@), None => None }) == spec_decode_rgb(self.data@, self.byte_order, ifd@),
    {
        decode_uncompressed_rgb(self.data.as_slice(), self.byte_order, ifd)
    }

    /// The first uncompressed RGB image that decodes, largest images first.
    pub fn decode_preview_rgb(&self) -> (r: Option<RgbPixels>)
        ensures
            first_decodable(self.data@, self.byte_order, ifds_view(self.ifds@), false, match r { Some(p) => Some(p@), None => None }),
    {
        decode_first_in_order(self.data.as_slice(), self.byte_order, &self.ifds, false)
    }

    /// The first uncompressed RGB image that decodes, reduced-resolution
    /// images first, then smallest first.
    pub fn decode_thumbnail_rgb(&self) -> (r: Option<RgbPixels>)
        ensures
            first_decodable(self.data@, self.byte_order, ifds_view(self.ifds@), true, match r { Some(p) => Some(p@), None => None }),
    {
        decode_first_in_order(self.data.as_slice(), self.byte_order, &self.ifds, true)
    }

    /// The full-resolution image for export: the largest uncompressed RGB IFD,
    /// at its own bit depth.
    pub fn decode_for_export(&self) -> (r: Option<RgbPixels>)
        ensures
            r matches Some(p) ==> exists|c: int| is_largest_candidate(ifds_view(self.ifds@), c)
                && spec_decode_rgb(self.data@, self.byte_order, ifds_view(self.ifds@)[c]) == Some(p@),
            r is None ==> forall|c: int| is_largest_candidate(ifds_view(self.ifds@), c)
                ==> spec_decode_rgb(self.data@, self.byte_order, ifds_view(self.ifds@)[c]) is None,
    {
        let ghost iv = ifds_view(self.ifds@);
        match largest_candidate(&self.ifds) {
            Some(c) => {
                assert(iv[c as int] == self.ifds@[c as int]@);
                let r = decode_uncompressed_rgb(self.data.as_slice(), self.byte_order, &self.ifds[c]);
                proof {
                    assert forall|c2: int| is_largest_candidate(iv, c2) implies c2 == c by {
                        assert(!largest_first(iv, c2, c as int));
                        assert(!largest_first(iv, c as int, c2));
                    }
                }
                r
            },
            None => None,
        }
    }

    /// The 8-bit reduced-resolution image (NewSubfileType 1) together with the
    /// 16-bit image of the same size that is not the largest one.
    pub fn decode_thumbnail_pair(&self) -> (r: Option<(RgbPixels, RgbPixels)>)
        ensures
            r matches Some((a, b)) ==> exists|t: int, p: int| spec_thumbnail_pair(ifds_view(self.ifds@), t, p)
                && spec_decode_rgb(self.data@, self.byte_order, ifds_view(self.ifds@)[t]) == Some(a@)
                && spec_decode_rgb(self.data@, self.byte_order, ifds_view(self.ifds@)[p]) == Some(b@),
            r is None ==> forall|t: int, p: int| spec_thumbnail_pair(ifds_view(self.ifds@), t, p)
                ==> spec_decode_rgb(self.data@, self.byte_order, ifds_view(self.ifds@)[t]) is None
                || spec_decode_rgb(self.data@, self.byte_order, ifds_view(self.ifds@)[p]) is None,
    {
        let ghost iv = ifds_view(self.ifds@);
        let n = self.ifds.len();
        let mut infos: Vec<CandInfo> = Vec::new();
        let mut bpss: Vec<u32> = Vec::new();
        let mut subs: Vec<u32> = Vec::new();
        let mut i: usize = 0;
        while i < n
            invariant
                n == self.ifds@.len(),
                i <= n,
                iv == ifds_view(self.ifds@),
                infos@.len() == i,
                bpss@.len() == i,
                subs@.len() == i,
                forall|k: int| 0 <= k < i ==> (#[trigger] infos@[k]).cand == spec_is_rgb_candidate(iv[k])
                    && infos@[k].pixels == spec_pixels(iv[k]) && infos@[k].thumb == spec_is_thumb(iv[k]),
                forall|k: int| 0 <= k < i ==> #[trigger] bpss@[k] == spec_bps(iv[k]),
                forall|k: int| 0 <= k < i ==> #[trigger] subs@[k] == u32_or(spec_ifd_get_u32(iv[k], 0x00FE), 0),
            decreases n - i,
        {
            assert(iv[i as int] == self.ifds@[i as int]@);
            let info = cand_info(&self.ifds[i]);
            let b = match self.ifds[i].get_u32(0x0102) { Some(x) => x, None => 8 };
            let sb = match self.ifds[i].get_u32(0x00FE) { Some(x) => x, None => 0 };
            assert(b == spec_bps(iv[i as int]));
            assert(sb == u32_or(spec_ifd_get_u32(iv[i as int], 0x00FE), 0));
            infos.push(info);
            bpss.push(b);
            subs.push(sb);
            i = i + 1;
        }
        // The 8-bit thumbnail.
        let mut t: usize = 0;
        while t < n && !(infos[t].cand && infos[t].thumb && bpss[t] == 8)
            invariant
                n == self.ifds@.len(),
                t <= n,
                infos@.len() == n,
                bpss@.len() == n,
                forall|k: int| 0 <= k < n ==> (#[trigger] infos@[k]).cand == spec_is_rgb_candidate(iv[k])
                    && infos@[k].pixels == spec_pixels(iv[k]) && infos@[k].thumb == spec_is_thumb(iv[k])
                    && bpss@[k] == spec_bps(iv[k]),
                forall|e: int| 0 <= e < t && spec_is_rgb_candidate(iv[e]) ==> !(spec_is_thumb(iv[e]) && spec_bps(iv[e]) == 8),
            decreases n - t,
        {
            t = t + 1;
        }
        if t == n {
            return None;
        }
        let tw = self.ifds[t].get_u32(0x0100);
        let th = self.ifds[t].get_u32(0x0101);
        assert(iv[t as int] == self.ifds@[t as int]@);
        // Largest pixel count among the candidates.
        let mut max_pixels: u64 = 0;
        let mut k: usize = 0;
        while k < n
            invariant
                n == self.ifds@.len(),
                k <= n,
                infos@.len() == n,
                forall|j: int| 0 <= j < n ==> (#[trigger] infos@[j]).cand == spec_is_rgb_candidate(iv[j])
                    && infos@[j].pixels == spec_pixels(iv[j]),
                forall|j: int| 0 <= j < k && spec_is_rgb_candidate(iv[j]) ==> spec_pixels(iv[j]) <= max_pixels,
                0 <= t < n,
                spec_is_rgb_candidate(iv[t as int]) && spec_is_thumb(iv[t as int]) && spec_bps(iv[t as int]) == 8,
                forall|e: int| 0 <= e < t && spec_is_rgb_candidate(iv[e]) ==> !(spec_is_thumb(iv[e]) && spec_bps(iv[e]) == 8),
                max_pixels == 0 || exists|j: int| 0 <= j < k && spec_is_rgb_candidate(iv[j]) && spec_pixels(iv[j]) == max_pixels,
            decreases n - k,
        {
            if infos[k].cand && infos[k].pixels > max_pixels {
                max_pixels = infos[k].pixels;
            }
            k = k + 1;
        }
        // The 16-bit counterpart.
        let mut p: usize = 0;
        while p < n
            invariant
                n == self.ifds@.len(),
                p <= n,
                0 <= t < n,
                infos@.len() == n,
                bpss@.len() == n,
                subs@.len() == n,
                iv == ifds_view(self.ifds@),
                tw == spec_ifd_get_u32(iv[t as int], 0x0100),
                th == spec_ifd_get_u32(iv[t as int], 0x0101),
                forall|j: int| 0 <= j < n ==> (#[trigger] infos@[j]).cand == spec_is_rgb_candidate(iv[j])
                    && infos@[j].pixels == spec_pixels(iv[j]) && bpss@[j] == spec_bps(iv[j])
                    && subs@[j] == u32_or(spec_ifd_get_u32(iv[j], 0x00FE), 0),
                forall|j: int| 0 <= j < n && spec_is_rgb_candidate(iv[j]) ==> spec_pixels(iv[j]) <= max_pixels,
                max_pixels == 0 || exists|j: int| 0 <= j < n && spec_is_rgb_candidate(iv[j]) && spec_pixels(iv[j]) == max_pixels,
                spec_is_rgb_candidate(iv[t as int]) && spec_is_thumb(iv[t as int]) && spec_bps(iv[t as int]) == 8,
                forall|e: int| 0 <= e < t && spec_is_rgb_candidate(iv[e]) ==> !(spec_is_thumb(iv[e]) && spec_bps(iv[e]) == 8),
                forall|e: int| 0 <= e < p ==> !pair_preview_ok(iv, t as int, e),
            ensures
                forall|e: int| 0 <= e < p ==> !pair_preview_ok(iv, t as int, e),
                p < n ==> pair_preview_ok(iv, t as int, p as int),
            decreases n - p,
        {
            assert(iv[p as int] == self.ifds@[p as int]@);
            let ok = infos[p].cand && bpss[p] == 16 && subs[p] == 0 && infos[p].pixels < max_pixels
                && self.ifds[p].get_u32(0x0100) == tw && self.ifds[p].get_u32(0x0101) == th;
            if ok {
                proof {
                    let j = choose|j: int| 0 <= j < n && spec_is_rgb_candidate(iv[j]) && spec_pixels(iv[j]) == max_pixels;
                    assert(spec_pixels(iv[j]) > spec_pixels(iv[p as int]));
                    assert(pair_preview_ok(iv, t as int, p as int));
                }
                break;
            }
            proof {
                if pair_preview_ok(iv, t as int, p as int) {
                    let e = choose|e: int| 0 <= e < iv.len() && spec_is_rgb_candidate(iv[e]) && spec_pixels(iv[e]) > spec_pixels(iv[p as int]);
                    assert(spec_pixels(iv[e]) <= max_pixels);
                }
            }
            p = p + 1;
        }
        if p == n {
            assert forall|t2: int, p2: int| spec_thumbnail_pair(iv, t2, p2) implies false by {
                if t2 < t {
                } else if t < t2 {
                }
            }
            return None;
        }
        assert(spec_thumbnail_pair(iv, t as int, p as int));
        proof {
            assert forall|t2: int, p2: int| spec_thumbnail_pair(iv, t2, p2) implies t2 == t && p2 == p by {
                if t2 < t {
                } else if t < t2 {
                }
                if p2 < p {
                } else if p < p2 {
                }
            }
        }
        let a = self.decode_uncompressed_rgb(&self.ifds[t]);
        let b = self.decode_uncompressed_rgb(&self.ifds[p]);
        match (a, b) {
            (Some(a), Some(b)) => Some((a, b)),
            _ => None,
        }
    }
}

} // verus!
