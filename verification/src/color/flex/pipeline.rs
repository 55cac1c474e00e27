//! The baked tone pipeline: one 14-bit table per channel, applied by lookup.
use vstd::prelude::*;

verus! {

/// Three 14-bit tables, for red, green and blue.
pub struct Pipeline {
    /// The tables of the red, green and blue channels.
    pub channel_luts: [Box<[u16; 16384]>; 3],
}

/// Sample `v` limited to the last table index.
pub open spec fn lut_index(v: u16) -> int {
    if v > 16383 {
        16383
    } else {
        v as int
    }
}

/// The 16-bit form of a 14-bit value: shifted left by two, wrapping at 16 bits.
pub open spec fn widen_14_to_16(v: u16) -> u16 {
    ((v * 4) % 65536) as u16
}

impl Pipeline {
    /// The pipeline with the given tables.
    pub fn new(channel_luts: [Box<[u16; 16384]>; 3]) -> (r: Self)
        ensures
            r.channel_luts@[0]@ == channel_luts@[0]@,
            r.channel_luts@[1]@ == channel_luts@[1]@,
            r.channel_luts@[2]@ == channel_luts@[2]@,
    {
        Pipeline { channel_luts }
    }

    /// Maps every pixel of an interleaved 14-bit RGB buffer through the
    /// channel tables (a sample above 16383 reads the last entry).
    pub fn apply_14bit_rgb(&self, pixels: &mut [u16])
        requires
            old(pixels)@.len() % 3 == 0,
        ensures
            final(pixels)@.len() == old(pixels)@.len(),
            forall|i: int|
                0 <= i < old(pixels)@.len() ==> #[trigger] final(pixels)@[i]
                    == self.channel_luts@[i % 3]@[lut_index(old(pixels)@[i])],
    {
        let len = pixels.len();
        let ghost before = pixels@;
        let mut i: usize = 0;
        while i < len
            invariant
                0 <= i <= len,
                len == before.len(),
                pixels@.len() == len,
                forall|j: int| 0 <= j < i ==> #[trigger] pixels@[j] == self.channel_luts@[j % 3]@[lut_index(before[j])],
                forall|j: int| i <= j < len ==> pixels@[j] == before[j],
            decreases len - i,
        {
            let v = pixels[i];
            let idx: usize = if v > 16383 {
                16383
            } else {
                v as usize
            };
            let ch: usize = i % 3;
            let out = self.channel_luts[ch][idx];
            pixels[i] = out;
            i = i + 1;
        }
    }

    /// Maps every pixel of an interleaved 16-bit RGB buffer: each sample is
    /// narrowed to 14 bits (shifted right by two), looked up, and widened
    /// again (shifted left by two).
    pub fn apply_16bit_rgb(&self, pixels: &mut [u16])
        requires
            old(pixels)@.len() % 3 == 0,
        ensures
            final(pixels)@.len() == old(pixels)@.len(),
            forall|i: int|
                0 <= i < old(pixels)@.len() ==> #[trigger] final(pixels)@[i] == widen_14_to_16(
                    self.channel_luts@[i % 3]@[(old(pixels)@[i] / 4) as int],
                ),
    {
        let len = pixels.len();
        let ghost before = pixels@;
        let mut i: usize = 0;
        while i < len
            invariant
                0 <= i <= len,
                len == before.len(),
                pixels@.len() == len,
                forall|j: int|
                    0 <= j < i ==> #[trigger] pixels@[j] == widen_14_to_16(self.channel_luts@[j % 3]@[(before[j] / 4) as int]),
                forall|j: int| i <= j < len ==> pixels@[j] == before[j],
            decreases len - i,
        {
            let v = pixels[i];
            let idx: usize = (v / 4) as usize;
            let ch: usize = i % 3;
            let t: u16 = self.channel_luts[ch][idx];
            let out: u16 = ((t as u32 * 4) % 65536) as u16;
            pixels[i] = out;
            i = i + 1;
        }
    }
}

} // verus!
