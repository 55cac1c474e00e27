//! An aggregate curve: children composed in order, each under a composition
//! mode.
//!
//! Two values are carried through the children: the running value and the
//! last sequential value. Every child maps the last sequential value; a
//! `Sequential` child replaces both, `AddDelta` adds its output to the
//! running value (wrapping at 16 bits) and `SubClamp` subtracts it (clamped
//! to the 14-bit domain).
use vstd::prelude::*;

use super::{CompositionMode, Curve, MAX_14BIT};

verus! {

/// A child curve together with the mode it is composed under.
pub struct CurveChild {
    /// The child curve.
    pub curve: Box<dyn Curve>,
    /// How its output enters the running value.
    pub mode: CompositionMode,
}

/// Children composed in order into one curve.
pub struct AggregateCurve {
    /// The children, in order of application.
    pub children: Vec<CurveChild>,
    /// Whether the curve is switched on.
    pub enabled: bool,
}

/// `running - y` clamped to the 14-bit domain.
pub open spec fn sub_clamp_14(running: u16, y: u16) -> u16 {
    if running < y {
        0
    } else if running - y > 16383 {
        16383
    } else {
        (running - y) as u16
    }
}

/// One composition step on `(running, last_sequential)` with child output `y`.
pub open spec fn compose_step(state: (u16, u16), y: u16, mode: CompositionMode) -> (u16, u16) {
    match mode {
        CompositionMode::Sequential => (y, y),
        CompositionMode::AddDelta => (((state.0 + y) % 65536) as u16, state.1),
        CompositionMode::SubClamp => (sub_clamp_14(state.0, y), state.1),
    }
}

/// The state `(running, last_sequential)` after the first `n` children, on
/// input `x`.
pub open spec fn compose_prefix(children: Seq<CurveChild>, n: nat, x: u16) -> (u16, u16)
    decreases n,
{
    if n == 0 {
        (x, x)
    } else {
        let s = compose_prefix(children, (n - 1) as nat, x);
        let child = children[n - 1];
        compose_step(s, child.curve.curve_value(s.1), child.mode)
    }
}

/// The value of an aggregate with the given children and switch on `x`.
pub open spec fn aggregate_value(children: Seq<CurveChild>, enabled: bool, x: u16) -> u16 {
    if !enabled || children.len() == 0 {
        x
    } else {
        compose_prefix(children, children.len(), x).0
    }
}

/// Whether every child is composed sequentially.
pub open spec fn all_sequential(children: Seq<CurveChild>) -> bool {
    forall|i: int| 0 <= i < children.len() ==> (#[trigger] children[i]).mode == CompositionMode::Sequential
}

impl AggregateCurve {
    /// An empty, enabled aggregate.
    pub fn new() -> (r: Self)
        ensures
            r.children@.len() == 0,
            r.enabled,
    {
        AggregateCurve { children: Vec::new(), enabled: true }
    }

    /// The aggregate with one more child, composed under `mode`, at the end.
    pub fn add(self, child: Box<dyn Curve>, mode: CompositionMode) -> (r: Self)
        ensures
            r.children@ == self.children@.push(CurveChild { curve: child, mode }),
            r.children@.len() == self.children@.len() + 1,
            forall|i: int| 0 <= i < self.children@.len() ==> #[trigger] r.children@[i] == self.children@[i],
            r.children@[self.children@.len() as int] == (CurveChild { curve: child, mode }),
            r.enabled == self.enabled,
    {
        let ghost before = self.children@;
        let mut s = self;
        s.children.push(CurveChild { curve: child, mode });
        proof {
            vstd::seq::axiom_seq_push_len(before, CurveChild { curve: child, mode });
            vstd::seq::axiom_seq_push_index_same(before, CurveChild { curve: child, mode }, before.len() as int);
            assert forall|i: int| 0 <= i < before.len() implies #[trigger] s.children@[i] == before[i] by {
                vstd::seq::axiom_seq_push_index_different(before, CurveChild { curve: child, mode }, i);
            }
        }
        s
    }

    /// The aggregate with one more sequential child at the end.
    pub fn add_seq(self, child: Box<dyn Curve>) -> (r: Self)
        ensures
            r.children@ == self.children@.push(CurveChild { curve: child, mode: CompositionMode::Sequential }),
            r.children@.len() == self.children@.len() + 1,
            forall|i: int| 0 <= i < self.children@.len() ==> #[trigger] r.children@[i] == self.children@[i],
            r.children@[self.children@.len() as int] == (CurveChild { curve: child, mode: CompositionMode::Sequential }),
            r.enabled == self.enabled,
    {
        let ghost before = self.children@;
        let mut s = self;
        s.children.push(CurveChild { curve: child, mode: CompositionMode::Sequential });
        proof {
            let c = CurveChild { curve: child, mode: CompositionMode::Sequential };
            vstd::seq::axiom_seq_push_len(before, c);
            vstd::seq::axiom_seq_push_index_same(before, c, before.len() as int);
            assert forall|i: int| 0 <= i < before.len() implies #[trigger] s.children@[i] == before[i] by {
                vstd::seq::axiom_seq_push_index_different(before, c, i);
            }
        }
        s
    }

    /// The number of children.
    pub fn len(&self) -> (r: usize)
        ensures
            r == self.children@.len(),
    {
        self.children.len()
    }

    /// Whether there are no children.
    pub fn is_empty(&self) -> (r: bool)
        ensures
            r == (self.children@.len() == 0),
    {
        self.children.len() == 0
    }
}

impl Default for AggregateCurve {
    fn default() -> (r: Self)
        ensures
            r.children@.len() == 0,
            r.enabled,
    {
        AggregateCurve::new()
    }
}

fn sub_clamp_exec(running: u16, y: u16) -> (r: u16)
    ensures
        r == sub_clamp_14(running, y),
{
    let tmp: i32 = running as i32 - y as i32;
    if tmp < 0 {
        0
    } else if tmp > MAX_14BIT as i32 {
        MAX_14BIT
    } else {
        tmp as u16
    }
}

impl Curve for AggregateCurve {
    open spec fn curve_value(&self, x: u16) -> u16 {
        aggregate_value(self.children@, self.enabled, x)
    }

    fn compute_single(&self, input: u16) -> (r: u16) {
        if !self.enabled || self.children.len() == 0 {
            return input;
        }
        let mut running: u16 = input;
        let mut last_m0: u16 = input;
        let mut i: usize = 0;
        while i < self.children.len()
            invariant
                0 <= i <= self.children@.len(),
                (running, last_m0) == compose_prefix(self.children@, i as nat, input),
            decreases self.children@.len() - i,
        {
            let child = &self.children[i];
            let y = child.curve.compute_single(last_m0);
            match child.mode {
                CompositionMode::Sequential => {
                    running = y;
                    last_m0 = y;
                },
                CompositionMode::AddDelta => {
                    running = running.wrapping_add(y);
                },
                CompositionMode::SubClamp => {
                    running = sub_clamp_exec(running, y);
                },
            }
            i = i + 1;
        }
        running
    }

    fn enabled(&self) -> (r: bool)
        ensures
            r == (self.enabled && self.children@.len() > 0),
    {
        self.enabled && self.children.len() > 0
    }
}

/// An aggregate without children maps every sample to itself.
pub proof fn lemma_empty_aggregate_is_identity(agg: AggregateCurve, x: u16)
    requires
        agg.children@.len() == 0,
    ensures
        agg.curve_value(x) == x,
{
}

/// A switched-off aggregate maps every sample to itself.
pub proof fn lemma_disabled_aggregate_is_identity(agg: AggregateCurve, x: u16)
    requires
        !agg.enabled,
    ensures
        agg.curve_value(x) == x,
{
}

/// Appending a sequential child to an enabled aggregate whose children are
/// all sequential composes that child after the aggregate.
pub proof fn lemma_sequential_append_composes(
    agg: AggregateCurve,
    longer: AggregateCurve,
    child: CurveChild,
    x: u16,
)
    requires
        agg.enabled,
        longer.enabled,
        all_sequential(agg.children@),
        child.mode == CompositionMode::Sequential,
        longer.children@ == agg.children@.push(child),
    ensures
        longer.curve_value(x) == child.curve.curve_value(agg.curve_value(x)),
{
    let cs = agg.children@;
    let n = cs.len();
    lemma_sequential_prefix(cs, n, x);
    let ds = longer.children@;
    assert(ds.len() == n + 1);
    assert(ds[n as int].mode == CompositionMode::Sequential);
    lemma_prefix_extends(cs, ds, n, x);
}

proof fn lemma_sequential_prefix(cs: Seq<CurveChild>, n: nat, x: u16)
    requires
        all_sequential(cs),
        n <= cs.len(),
    ensures
        compose_prefix(cs, n, x).0 == compose_prefix(cs, n, x).1,
    decreases n,
{
    if n > 0 {
        lemma_sequential_prefix(cs, (n - 1) as nat, x);
        assert(cs[n - 1].mode == CompositionMode::Sequential);
    }
}

proof fn lemma_prefix_extends(
    cs: Seq<CurveChild>,
    ds: Seq<CurveChild>,
    n: nat,
    x: u16,
)
    requires
        n <= cs.len(),
        cs.len() <= ds.len(),
        forall|i: int| 0 <= i < cs.len() ==> ds[i] == cs[i],
    ensures
        compose_prefix(ds, n, x) == compose_prefix(cs, n, x),
    decreases n,
{
    if n > 0 {
        lemma_prefix_extends(cs, ds, (n - 1) as nat, x);
    }
}

} // verus!
