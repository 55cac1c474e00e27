//! A curve given by its table over the 14-bit domain: the form in which
//! curves computed outside this library (in floating point) join an
//! aggregate or a three-zone curve.
use vstd::prelude::*;

use super::single_point::table_index;
use super::{Curve, MAX_14BIT};

verus! {

/// A curve that maps each sample to its table entry (samples above 16383
/// to the last entry).
pub struct TableCurve {
    /// The table over the 14-bit domain.
    pub table: Box<[u16; 16384]>,
}

impl TableCurve {
    /// The curve with the given table.
    pub fn new(table: Box<[u16; 16384]>) -> (r: Self)
        ensures
            r.table@ == table@,
    {
        TableCurve { table }
    }
}

impl Curve for TableCurve {
    open spec fn curve_value(&self, x: u16) -> u16 {
        self.table@[table_index(x)]
    }

    fn compute_single(&self, x: u16) -> (r: u16) {
        let idx: usize = if x > MAX_14BIT {
            16383
        } else {
            x as usize
        };
        self.table[idx]
    }
}

} // verus!
