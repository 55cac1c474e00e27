//! The curve family of the 14-bit tone pipeline.
//!
//! Every curve maps the 14-bit domain (0..=16383) onto itself. A curve states
//! its mapping as the spec function `curve_value`; `compute_single` evaluates
//! it for one sample and `build_lut` tabulates it for the whole domain.
pub mod aggregate;
pub mod contrast;
pub mod high_shadow;
pub mod point;
pub mod single_point;
pub mod spline;
pub mod table;

use vstd::prelude::*;

verus! {

/// Upper end (inclusive) of the 14-bit domain, 2^14 - 1.
pub const MAX_14BIT: u16 = 16383;

/// Midpoint of the 14-bit domain, 2^13: the fixed pivot of the pipeline.
pub const PIVOT_14BIT: u16 = 8192;

/// A tone curve on 14-bit samples.
pub trait Curve {
    /// The value the curve maps `x` to; every curve states its own.
    spec fn curve_value(&self, x: u16) -> u16;

    /// Maps one sample.
    fn compute_single(&self, x: u16) -> (r: u16)
        ensures
            r == self.curve_value(x),
    ;

    /// Tabulates the curve over the whole 14-bit domain: entry `i` is the
    /// value of sample `i`.
    fn build_lut(&self, lut: &mut [u16; 16384])
        ensures
            forall|i: int| 0 <= i < 16384 ==> final(lut)@[i] == self.curve_value(i as u16),
    {
        let mut i: usize = 0;
        while i < 16384
            invariant
                0 <= i <= 16384,
                forall|j: int| 0 <= j < i ==> lut@[j] == self.curve_value(j as u16),
            decreases 16384 - i,
        {
            lut[i] = self.compute_single(i as u16);
            i = i + 1;
        }
    }

    /// Whether the curve is switched on; a curve without a switch always is.
    fn enabled(&self) -> (r: bool)
        default_ensures
            r,
    {
        true
    }
}

/// How a child of an aggregate curve contributes to the running value.
#[derive(Debug, Clone, Copy, PartialEq, Eq)]
pub enum CompositionMode {
    /// The child maps the last sequential value; its output becomes both the
    /// running value and the new last sequential value.
    Sequential,
    /// The child maps the last sequential value; its output is added to the
    /// running value, wrapping at 16 bits.
    AddDelta,
    /// The child maps the last sequential value; its output is subtracted from
    /// the running value, clamped to the 14-bit domain.
    SubClamp,
}

/// `n / d` rounded half away from zero after clamping the quotient to
/// `[0, 16383]` (`d > 0`).
pub open spec fn round_clamp_14(n: int, d: int) -> int {
    if n <= 0 {
        0
    } else if n >= 16383 * d {
        16383
    } else {
        (2 * n + d) / (2 * d)
    }
}

/// Executable form of `round_clamp_14` for numerators that fit in an `i64`.
pub fn round_clamp_14_exec(n: i64, d: i64) -> (r: u16)
    requires
        0 < d < 0x1_0000_0000,
        -0x1000_0000_0000 < n < 0x1000_0000_0000,
    ensures
        r as int == round_clamp_14(n as int, d as int),
        r <= MAX_14BIT,
{
    if n <= 0 {
        0
    } else if n >= 16383 * d {
        MAX_14BIT
    } else {
        assert(0 < n < 16383 * d);
        assert(0 < 2 * n + d < 32767 * d) by (nonlinear_arith)
            requires
                0 < n < 16383 * d,
                d > 0,
        ;
        let num: u64 = (2 * n + d) as u64;
        let den: u64 = (2 * d) as u64;
        assert(num == 2 * n + d && den == 2 * d);
        let q: u64 = num / den;
        assert(q <= 16383) by (nonlinear_arith)
            requires
                q == num / den,
                num < 32767 * d,
                den == 2 * d,
                d > 0,
        ;
        q as u16
    }
}

} // verus!
