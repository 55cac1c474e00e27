//! A curve given by an optional table: when switched on and given a table it
//! looks the sample up, otherwise it passes the sample through.
use vstd::prelude::*;

use super::{Curve, MAX_14BIT};

verus! {

/// A curve given by an optional 14-bit table.
pub struct SinglePointCurve {
    /// The table; without one the curve is the identity.
    pub lut: Option<Box<[u16; 16384]>>,
    /// Whether the curve is switched on.
    pub enabled: bool,
}

impl SinglePointCurve {
    /// The default: switched on, without a table.
    pub fn default_enabled() -> (r: Self)
        ensures
            r.lut.is_none(),
            r.enabled,
    {
        SinglePointCurve { lut: None, enabled: true }
    }

    /// Switched off.
    pub fn disabled() -> (r: Self)
        ensures
            r.lut.is_none(),
            !r.enabled,
    {
        SinglePointCurve { lut: None, enabled: false }
    }

    /// Switched on, with the given table.
    pub fn with_lut(lut: Box<[u16; 16384]>) -> (r: Self)
        ensures
            r.lut == Some(lut),
            r.enabled,
    {
        SinglePointCurve { lut: Some(lut), enabled: true }
    }
}

/// `x` limited to the last table index.
pub open spec fn table_index(x: u16) -> int {
    if x > 16383 {
        16383
    } else {
        x as int
    }
}

impl Curve for SinglePointCurve {
    open spec fn curve_value(&self, x: u16) -> u16 {
        if !self.enabled {
            x
        } else {
            match self.lut {
                Some(t) => t@[table_index(x)],
                None => x,
            }
        }
    }

    fn compute_single(&self, x: u16) -> (r: u16) {
        if !self.enabled {
            return x;
        }
        match &self.lut {
            Some(t) => {
                let idx: usize = if x > MAX_14BIT {
                    16383
                } else {
                    x as usize
                };
                t[idx]
            },
            None => x,
        }
    }

    fn build_lut(&self, lut: &mut [u16; 16384]) {
        let mut i: usize = 0;
        while i < 16384
            invariant
                0 <= i <= 16384,
                forall|j: int| 0 <= j < i ==> lut@[j] == self.curve_value(j as u16),
            decreases 16384 - i,
        {
            let v: u16 = match (&self.lut, self.enabled) {
                (Some(src), true) => src[i],
                _ => i as u16,
            };
            lut[i] = v;
            i = i + 1;
        }
    }

    fn enabled(&self) -> (r: bool)
        ensures
            r == self.enabled,
    {
        self.enabled
    }
}

} // verus!
