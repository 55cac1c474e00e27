//! The three-zone shadow / highlight curve.
//!
//! Below the shadow boundary the output follows the shadow mode, at or above
//! the highlight boundary it follows the highlight mode, and in between the
//! input is stretched onto the whole domain, mapped by the inner curve and
//! squeezed back into `[shadow_out, highlight_out]`:
//! `remapped = round((v - shadow_boundary) * 16383 / (highlight_boundary - shadow_boundary))`,
//! `out = round(clamp(shadow_out + inner(remapped) * (highlight_out - shadow_out) / 16383))`.
//! Both roundings are half away from zero and computed exactly.
use vstd::prelude::*;

use super::{round_clamp_14, round_clamp_14_exec, Curve, MAX_14BIT};

verus! {

/// Output below the shadow boundary.
#[derive(Debug, Clone, Copy, PartialEq, Eq)]
pub enum ShadowMode {
    /// The constant `shadow_out`.
    Const,
    /// A line from 0 at input 0 towards `shadow_out` at the boundary.
    Linear,
    /// Black.
    Zero,
}

/// Output at or above the highlight boundary.
#[derive(Debug, Clone, Copy, PartialEq, Eq)]
pub enum HighlightMode {
    /// The constant `highlight_out`.
    Const,
    /// A line from `highlight_out` at the boundary towards 16383.
    Linear,
    /// White (16383).
    Max,
}

impl ShadowMode {
    /// The mode with number `v` (0, 1, 2); any other number is `Const`.
    pub fn from_int(v: i32) -> (r: Self)
        ensures
            r == (if v == 1 {
                ShadowMode::Linear
            } else if v == 2 {
                ShadowMode::Zero
            } else {
                ShadowMode::Const
            }),
    {
        match v {
            0 => ShadowMode::Const,
            1 => ShadowMode::Linear,
            2 => ShadowMode::Zero,
            _ => ShadowMode::Const,
        }
    }
}

impl HighlightMode {
    /// The mode with number `v` (0, 1, 2); any other number is `Const`.
    pub fn from_int(v: i32) -> (r: Self)
        ensures
            r == (if v == 1 {
                HighlightMode::Linear
            } else if v == 2 {
                HighlightMode::Max
            } else {
                HighlightMode::Const
            }),
    {
        match v {
            0 => HighlightMode::Const,
            1 => HighlightMode::Linear,
            2 => HighlightMode::Max,
            _ => HighlightMode::Const,
        }
    }
}

/// The three-zone curve around an inner curve.
pub struct HighShadowCurve {
    /// Inputs below this are in the shadow zone.
    pub shadow_boundary: u16,
    /// Inputs at or above this are in the highlight zone.
    pub highlight_boundary: u16,
    /// Output level of the shadow zone.
    pub shadow_out: u16,
    /// Output level of the highlight zone.
    pub highlight_out: u16,
    /// Shadow zone behaviour.
    pub shadow_mode: ShadowMode,
    /// Highlight zone behaviour.
    pub highlight_mode: HighlightMode,
    /// The curve applied in the mid zone.
    pub sub_curve: Box<dyn Curve>,
}

/// Output in the shadow zone (`v < sh`).
pub open spec fn shadow_value(mode: ShadowMode, sh: u16, so: u16, v: u16) -> u16 {
    match mode {
        ShadowMode::Const => so,
        ShadowMode::Linear => if sh == 0 {
            so
        } else {
            (so * v / (sh as int)) as u16
        },
        ShadowMode::Zero => 0,
    }
}

/// Output in the highlight zone (`v >= hi`). An output level above the
/// domain leaves the line no room and gives 16383.
pub open spec fn highlight_value(mode: HighlightMode, hi: u16, ho: u16, v: u16) -> u16 {
    match mode {
        HighlightMode::Const => ho,
        HighlightMode::Linear => if hi >= 16384 || ho >= 16383 {
            16383
        } else {
            let delta = ((v - hi) * (16383 - ho) / ((16384 - hi) as int)) % 65536;
            if ho + delta >= 16383 {
                16383
            } else {
                (ho + delta) as u16
            }
        },
        HighlightMode::Max => 16383,
    }
}

/// The mid-zone input stretched onto the whole domain (`sh <= v < hi`).
pub open spec fn mid_remap(sh: u16, hi: u16, v: u16) -> u16 {
    round_clamp_14((v - sh) * 16383, (hi - sh) as int) as u16
}

/// The mid-zone output for inner value `y`.
pub open spec fn mid_output(so: u16, ho: u16, y: u16) -> u16 {
    round_clamp_14(so * 16383 + y * (ho - so), 16383) as u16
}

impl HighShadowCurve {
    /// A curve with the given zones around `sub_curve`.
    pub fn new(
        shadow_boundary: u16,
        highlight_boundary: u16,
        shadow_out: u16,
        highlight_out: u16,
        shadow_mode: ShadowMode,
        highlight_mode: HighlightMode,
        sub_curve: Box<dyn Curve>,
    ) -> (r: Self)
        ensures
            r.shadow_boundary == shadow_boundary,
            r.highlight_boundary == highlight_boundary,
            r.shadow_out == shadow_out,
            r.highlight_out == highlight_out,
            r.shadow_mode == shadow_mode,
            r.highlight_mode == highlight_mode,
            r.sub_curve === sub_curve,
    {
        HighShadowCurve {
            shadow_boundary,
            highlight_boundary,
            shadow_out,
            highlight_out,
            shadow_mode,
            highlight_mode,
            sub_curve,
        }
    }

    /// The configuration without histogram adjustment: no shadow zone, the
    /// highlight zone reduced to the top sample, and the inner curve spread
    /// over the whole domain.
    pub fn identity_like(sub_curve: Box<dyn Curve>) -> (r: Self)
        ensures
            r.shadow_boundary == 0,
            r.highlight_boundary == MAX_14BIT,
            r.shadow_out == 0,
            r.highlight_out == MAX_14BIT,
            r.shadow_mode == ShadowMode::Const,
            r.highlight_mode == HighlightMode::Const,
            r.sub_curve === sub_curve,
    {
        HighShadowCurve {
            shadow_boundary: 0,
            highlight_boundary: MAX_14BIT,
            shadow_out: 0,
            highlight_out: MAX_14BIT,
            shadow_mode: ShadowMode::Const,
            highlight_mode: HighlightMode::Const,
            sub_curve,
        }
    }
}

impl Curve for HighShadowCurve {
    open spec fn curve_value(&self, v: u16) -> u16 {
        if v < self.shadow_boundary {
            shadow_value(self.shadow_mode, self.shadow_boundary, self.shadow_out, v)
        } else if v < self.highlight_boundary {
            mid_output(
                self.shadow_out,
                self.highlight_out,
                self.sub_curve.curve_value(mid_remap(self.shadow_boundary, self.highlight_boundary, v)),
            )
        } else {
            highlight_value(self.highlight_mode, self.highlight_boundary, self.highlight_out, v)
        }
    }

    fn compute_single(&self, v: u16) -> (r: u16) {
        let sh = self.shadow_boundary;
        let hi = self.highlight_boundary;
        let so = self.shadow_out;
        let ho = self.highlight_out;
        if v < sh {
            match self.shadow_mode {
                ShadowMode::Const => so,
                ShadowMode::Linear => {
                    if sh == 0 {
                        so
                    } else {
                        assert(so * v <= 65535 * 65535) by (nonlinear_arith)
                            requires
                                so <= 65535,
                                v <= 65535,
                        ;
                        let p: u32 = so as u32 * v as u32;
                        let q: u32 = p / sh as u32;
                        assert(q <= so) by (nonlinear_arith)
                            requires
                                p == so * v,
                                q == p / (sh as u32),
                                v < sh,
                                sh > 0,
                        ;
                        q as u16
                    }
                },
                ShadowMode::Zero => 0,
            }
        } else if v < hi {
            let span: i64 = hi as i64 - sh as i64;
            let stretched: i64 = (v as i64 - sh as i64) * 16383;
            let remapped = round_clamp_14_exec(stretched, span);
            let y = self.sub_curve.compute_single(remapped);
            assert(-65535 * 65535 <= y * (ho - so) <= 65535 * 65535) by (nonlinear_arith)
                requires
                    0 <= y <= 65535,
                    -65535 <= ho - so <= 65535,
            ;
            let n: i64 = so as i64 * 16383 + y as i64 * (ho as i64 - so as i64);
            round_clamp_14_exec(n, MAX_14BIT as i64)
        } else {
            match self.highlight_mode {
                HighlightMode::Const => ho,
                HighlightMode::Linear => {
                    if hi >= 16384 || ho >= MAX_14BIT {
                        MAX_14BIT
                    } else {
                        let denom: u32 = 16384 - hi as u32;
                        assert((v - hi) * (16383 - ho) <= 65535 * 16383) by (nonlinear_arith)
                            requires
                                0 <= v - hi <= 65535,
                                0 <= 16383 - ho <= 16383,
                        ;
                        let num: u32 = (v as u32 - hi as u32) * (MAX_14BIT as u32 - ho as u32);
                        let delta: u32 = (num / denom) % 65536;
                        if ho as u32 + delta >= MAX_14BIT as u32 {
                            MAX_14BIT
                        } else {
                            (ho as u32 + delta) as u16
                        }
                    }
                },
                HighlightMode::Max => MAX_14BIT,
            }
        }
    }
}

/// Without histogram adjustment the curve passes the inner curve through:
/// below the top sample it is the inner curve clamped to the domain, and the
/// top sample maps to itself.
pub proof fn lemma_identity_like_passes_inner(hsc: HighShadowCurve, v: u16)
    requires
        hsc.shadow_boundary == 0,
        hsc.highlight_boundary == MAX_14BIT,
        hsc.shadow_out == 0,
        hsc.highlight_out == MAX_14BIT,
        hsc.highlight_mode == HighlightMode::Const,
        v <= MAX_14BIT,
    ensures
        v < MAX_14BIT ==> hsc.curve_value(v) == if hsc.sub_curve.curve_value(v) > MAX_14BIT {
            MAX_14BIT
        } else {
            hsc.sub_curve.curve_value(v)
        },
        v == MAX_14BIT ==> hsc.curve_value(v) == MAX_14BIT,
{
    if v < MAX_14BIT {
        let n = v * 16383;
        if v > 0 {
            assert((2 * n + 16383) / (2 * 16383int) == v) by (nonlinear_arith)
                requires
                    n == v * 16383,
            ;
        }
        assert(mid_remap(0, MAX_14BIT, v) == v);
        let y = hsc.sub_curve.curve_value(v);
        let m = y * 16383;
        if 0 < y < 16383 {
            assert((2 * m + 16383) / (2 * 16383int) == y) by (nonlinear_arith)
                requires
                    m == y * 16383,
            ;
        }
        assert(mid_output(0, MAX_14BIT, y) == if y > MAX_14BIT { MAX_14BIT } else { y });
    }
}

} // verus!
