//! The ICC profile that a scan embeds in its TIFF data.
use vstd::prelude::*;

use crate::text::{bytes_match_at, occurs_at, str_equals};
use crate::tiff::{copy_bytes, read_u16_at, read_u32_at, spec_u16_at, spec_u32_at, ByteOrder};

verus! {

/// The byte order of TIFF data: big-endian when it starts with `MM`.
pub open spec fn data_order(d: Seq<u8>) -> ByteOrder {
    if d[0] == 77 && d[1] == 77 {
        ByteOrder::BigEndian
    } else {
        ByteOrder::LittleEndian
    }
}

/// The number of bytes of `count` values of TIFF type `typ` (unknown types
/// count one byte per value).
pub open spec fn value_size(typ: u16, count: int) -> int {
    if typ == 3 || typ == 8 {
        count * 2
    } else if typ == 4 || typ == 9 {
        count * 4
    } else if typ == 5 || typ == 10 {
        count * 8
    } else {
        count
    }
}

/// The value bytes of the IFD entry at `e`, when they lie inside the data.
pub open spec fn entry_bytes(d: Seq<u8>, e: int, bo: ByteOrder) -> Option<Seq<u8>> {
    let size = value_size(spec_u16_at(d, e + 2, bo), spec_u32_at(d, e + 4, bo) as int);
    let at = if size <= 4 {
        e + 8
    } else {
        spec_u32_at(d, e + 8, bo) as int
    };
    if at + size <= d.len() {
        Some(d.subrange(at, at + size))
    } else {
        None
    }
}

/// The value bytes of the first entry from `i` on, of the IFD at `ifd` with
/// `n` entries, whose tag is `tag` and whose value lies inside the data;
/// the scan stops at an entry that does not fit.
pub open spec fn ifd_tag_bytes(d: Seq<u8>, ifd: int, bo: ByteOrder, tag: u16, i: int, n: int) -> Option<Seq<u8>>
    decreases n - i,
{
    if i >= n || ifd + 2 + 12 * i + 12 > d.len() {
        None
    } else {
        let e = ifd + 2 + 12 * i;
        if spec_u16_at(d, e, bo) == tag && entry_bytes(d, e, bo) is Some {
            entry_bytes(d, e, bo)
        } else {
            ifd_tag_bytes(d, ifd, bo, tag, i + 1, n)
        }
    }
}

/// The search of the IFD chain from `off` for the value bytes of `tag`,
/// visiting at most `fuel + 1` IFDs: `Some(found)` when the search ends,
/// `None` when it goes on longer.
pub open spec fn chain_tag_bytes(d: Seq<u8>, off: int, bo: ByteOrder, tag: u16, fuel: nat) -> Option<Option<Seq<u8>>>
    decreases fuel,
{
    if !(off > 0 && off + 2 <= d.len()) {
        Some(None)
    } else {
        let n = spec_u16_at(d, off, bo) as int;
        match ifd_tag_bytes(d, off, bo, tag, 0, n) {
            Some(v) => Some(Some(v)),
            None => {
                let next = off + 2 + n * 12;
                if next + 4 <= d.len() {
                    if fuel == 0 {
                        None
                    } else {
                        chain_tag_bytes(d, spec_u32_at(d, next, bo) as int, bo, tag, (fuel - 1) as nat)
                    }
                } else {
                    Some(None)
                }
            },
        }
    }
}

/// The search of TIFF data for the value bytes of `tag`, following the IFD
/// chain from the header. There are fewer IFD offsets than bytes, so a
/// search that visits more IFDs than that has met an IFD again and goes on
/// forever: `None` stands for that.
pub open spec fn tag_bytes(d: Seq<u8>, tag: u16) -> Option<Option<Seq<u8>>> {
    if d.len() < 8 {
        Some(None)
    } else {
        chain_tag_bytes(d, spec_u32_at(d, 4, data_order(d)) as int, data_order(d), tag, d.len())
    }
}

/// `acsp`, the signature at byte 36 of an ICC profile.
pub open spec fn acsp_sig() -> Seq<u8> {
    seq![97u8, 99u8, 115u8, 112u8]
}

/// The embedded profile: when a tag row names `0xC51A`, the value bytes of
/// that tag if they are an ICC profile (more than 40 bytes, `acsp` at 36).
pub open spec fn embedded_icc(d: Seq<u8>, has_tag: bool) -> Option<Seq<u8>> {
    if !has_tag {
        None
    } else {
        match tag_bytes(d, 0xC51A) {
            Some(Some(v)) => if v.len() > 40 && occurs_at(v, acsp_sig(), 36) {
                Some(v)
            } else {
                None
            },
            _ => None,
        }
    }
}

fn entry_bytes_at(d: &[u8], e: usize, bo: ByteOrder) -> (r: Option<Vec<u8>>)
    requires
        e + 12 <= d@.len(),
    ensures
        match r {
            Some(v) => entry_bytes(d@, e as int, bo) == Some(v@),
            None => entry_bytes(d@, e as int, bo) is None,
        },
{
    let n = d.len();
    assert(e + 12 <= n);
    let typ = read_u16_at(d, e + 2, bo);
    let count = read_u32_at(d, e + 4, bo) as u64;
    let size: u64 = if typ == 3 || typ == 8 {
        count * 2
    } else if typ == 4 || typ == 9 {
        count * 4
    } else if typ == 5 || typ == 10 {
        count * 8
    } else {
        count
    };
    let at: u64 = if size <= 4 {
        (e + 8) as u64
    } else {
        read_u32_at(d, e + 8, bo) as u64
    };
    if at + size <= n as u64 {
        Some(copy_bytes(d, at as usize, (at + size) as usize))
    } else {
        None
    }
}

fn ifd_tag_bytes_at(d: &[u8], ifd: usize, bo: ByteOrder, tag: u16, n: usize) -> (r: Option<Vec<u8>>)
    requires
        ifd + 2 <= d@.len(),
        n <= 0xFFFF,
    ensures
        match r {
            Some(v) => ifd_tag_bytes(d@, ifd as int, bo, tag, 0, n as int) == Some(v@),
            None => ifd_tag_bytes(d@, ifd as int, bo, tag, 0, n as int) is None,
        },
{
    let len = d.len();
    let mut i: usize = 0;
    while i < n
        invariant
            i <= n <= 0xFFFF,
            ifd + 2 <= d@.len(),
            len == d@.len(),
            ifd_tag_bytes(d@, ifd as int, bo, tag, 0, n as int) == ifd_tag_bytes(
                d@,
                ifd as int,
                bo,
                tag,
                i as int,
                n as int,
            ),
        decreases n - i,
    {
        let e = ifd as u128 + 2 + 12 * i as u128;
        if e + 12 > len as u128 {
            return None;
        }
        let e = e as usize;
        if read_u16_at(d, e, bo) == tag {
            match entry_bytes_at(d, e, bo) {
                Some(v) => {
                    return Some(v);
                },
                None => {},
            }
        }
        i = i + 1;
    }
    None
}

/// Searches TIFF data for the value bytes of `tag`; `None` when the search
/// would go on forever (an IFD met again).
fn tag_bytes_at(d: &[u8], tag: u16) -> (r: Option<Option<Vec<u8>>>)
    ensures
        match r {
            Some(Some(v)) => tag_bytes(d@, tag) == Some(Some(v@)),
            Some(None) => tag_bytes(d@, tag) == Some(None::<Seq<u8>>),
            None => tag_bytes(d@, tag) is None,
        },
{
    if d.len() < 8 {
        return Some(None);
    }
    let bo = if d[0] == 77 && d[1] == 77 {
        ByteOrder::BigEndian
    } else {
        ByteOrder::LittleEndian
    };
    let len = d.len();
    let mut off: u64 = read_u32_at(d, 4, bo) as u64;
    let mut fuel: usize = len;
    loop
        invariant
            len == d@.len(),
            len >= 8,
            bo == data_order(d@),
            off <= 0xFFFF_FFFF,
            tag_bytes(d@, tag) == chain_tag_bytes(d@, off as int, bo, tag, fuel as nat),
        decreases fuel,
    {
        if !(off > 0 && off + 2 <= len as u64) {
            return Some(None);
        }
        let o = off as usize;
        let n = read_u16_at(d, o, bo) as usize;
        match ifd_tag_bytes_at(d, o, bo, tag, n) {
            Some(v) => {
                return Some(Some(v));
            },
            None => {},
        }
        let next = off + 2 + n as u64 * 12;
        if next + 4 <= len as u64 {
            if fuel == 0 {
                return None;
            }
            off = read_u32_at(d, next as usize, bo) as u64;
            fuel = fuel - 1;
        } else {
            return Some(None);
        }
    }
}

/// Whether the search of TIFF data for the value bytes of `tag` ends (it
/// does not when the IFD chain comes back to an IFD it has visited).
pub fn tag_search_ends(data: &[u8], tag: u16) -> (r: bool)
    ensures
        r == (tag_bytes(data@, tag) is Some),
{
    tag_bytes_at(data, tag).is_some()
}

/// The ICC profile embedded in a scan: when one of the tag rows (name,
/// hexadecimal tag, type, value) names tag `0xC51A`, that tag's value bytes
/// if they are an ICC profile (more than 40 bytes with `acsp` at byte 36);
/// otherwise `None`.
pub fn extract_embedded_icc(tiff_data: &[u8], tags: &[(String, String, String, String)]) -> (r: Option<Vec<u8>>)
    requires
        (exists|k: int| 0 <= k < tags@.len() && #[trigger] tags@[k].1@ == "0xC51A"@) ==> tag_bytes(
            tiff_data@,
            0xC51A,
        ) is Some,
    ensures
        match r {
            Some(v) => embedded_icc(
                tiff_data@,
                exists|k: int| 0 <= k < tags@.len() && #[trigger] tags@[k].1@ == "0xC51A"@,
            ) == Some(v@),
            None => embedded_icc(
                tiff_data@,
                exists|k: int| 0 <= k < tags@.len() && #[trigger] tags@[k].1@ == "0xC51A"@,
            ) is None,
        },
{
    let mut k: usize = 0;
    while k < tags.len()
        invariant
            k <= tags@.len(),
            forall|j: int| 0 <= j < k ==> #[trigger] tags@[j].1@ != "0xC51A"@,
        decreases tags@.len() - k,
    {
        if str_equals(tags[k].1.as_str(), "0xC51A") {
            assert(tags@[k as int].1@ == "0xC51A"@);
            let acsp: [u8; 4] = [97u8, 99u8, 115u8, 112u8];
            assert(acsp@ == acsp_sig());
            return match tag_bytes_at(tiff_data, 0xC51A) {
                Some(Some(v)) => {
                    if v.len() > 40 && bytes_match_at(v.as_slice(), acsp.as_slice(), 36) {
                        Some(v)
                    } else {
                        None
                    }
                },
                _ => None,
            };
        }
        k = k + 1;
    }
    None
}


/// Whether `v` is a run of consecutive bytes of `d`.
pub open spec fn is_span(d: Seq<u8>, v: Seq<u8>) -> bool {
    exists|off: int| 0 <= off && off + v.len() <= d.len() && #[trigger] d.subrange(off, off + v.len()) == v
}

proof fn lemma_entry_bytes_span(d: Seq<u8>, e: int, bo: ByteOrder)
    requires
        e >= 0,
        entry_bytes(d, e, bo) is Some,
    ensures
        is_span(d, entry_bytes(d, e, bo).unwrap()),
{
    let size = value_size(spec_u16_at(d, e + 2, bo), spec_u32_at(d, e + 4, bo) as int);
    let at = if size <= 4 {
        e + 8
    } else {
        spec_u32_at(d, e + 8, bo) as int
    };
    assert(size >= 0);
    let v = d.subrange(at, at + size);
    assert(v.len() == size);
    assert(d.subrange(at, at + v.len()) == v);
}

proof fn lemma_ifd_tag_bytes_span(d: Seq<u8>, ifd: int, bo: ByteOrder, tag: u16, i: int, n: int)
    requires
        ifd >= 0,
        i >= 0,
        ifd_tag_bytes(d, ifd, bo, tag, i, n) is Some,
    ensures
        is_span(d, ifd_tag_bytes(d, ifd, bo, tag, i, n).unwrap()),
    decreases n - i,
{
    if !(i >= n || ifd + 2 + 12 * i + 12 > d.len()) {
        let e = ifd + 2 + 12 * i;
        if spec_u16_at(d, e, bo) == tag && entry_bytes(d, e, bo) is Some {
            lemma_entry_bytes_span(d, e, bo);
        } else {
            lemma_ifd_tag_bytes_span(d, ifd, bo, tag, i + 1, n);
        }
    }
}

proof fn lemma_chain_tag_bytes_span(d: Seq<u8>, off: int, bo: ByteOrder, tag: u16, fuel: nat)
    requires
        chain_tag_bytes(d, off, bo, tag, fuel) matches Some(Some(v)),
    ensures
        is_span(d, chain_tag_bytes(d, off, bo, tag, fuel).unwrap().unwrap()),
    decreases fuel,
{
    if off > 0 && off + 2 <= d.len() {
        let n = spec_u16_at(d, off, bo) as int;
        match ifd_tag_bytes(d, off, bo, tag, 0, n) {
            Some(v) => {
                lemma_ifd_tag_bytes_span(d, off, bo, tag, 0, n);
            },
            None => {
                let next = off + 2 + n * 12;
                if next + 4 <= d.len() && fuel > 0 {
                    lemma_chain_tag_bytes_span(d, spec_u32_at(d, next, bo) as int, bo, tag, (fuel - 1) as nat);
                }
            },
        }
    }
}

/// The embedded profile is a run of the file's own bytes, more than 40
/// bytes long with `acsp` at byte 36; without a tag row naming `0xC51A`, or
/// in data shorter than a header, there is none.
pub proof fn lemma_embedded_icc_is_span(d: Seq<u8>, has_tag: bool)
    ensures
        !has_tag ==> embedded_icc(d, has_tag) is None,
        d.len() < 8 ==> embedded_icc(d, has_tag) is None,
        embedded_icc(d, has_tag) matches Some(v) ==> v.len() > 40 && occurs_at(v, acsp_sig(), 36) && is_span(d, v),
{
    if has_tag && d.len() >= 8 {
        if let Some(Some(v)) = tag_bytes(d, 0xC51A) {
            lemma_chain_tag_bytes_span(d, spec_u32_at(d, 4, data_order(d)) as int, data_order(d), 0xC51A, d.len());
        }
    }
}
} // verus!
