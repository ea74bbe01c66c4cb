//! The trace ring: a fixed-size circular buffer holding the call cells of
//! the most recent applications, overwritten unconditionally in FIFO
//! order.  It serves diagnostic reporting only and never influences
//! control flow.

use vstd::prelude::*;
use crate::cell::Cell;
use crate::cell::NIL;

verus! {

/// Number of call sites the ring remembers.
pub const NTRACE: usize = 10;

/// The ring buffer and its write position.
pub struct Trace {
    pub trace: Vec<Cell>,
    pub p: usize,
}

impl Trace {
    /// Well-formedness: the ring has its fixed size and the write position
    /// stays inside it.
    pub open spec fn wf(self) -> bool {
        &&& self.trace@.len() == NTRACE
        &&& self.p < NTRACE
    }

    /// Record one call cell at the write position and advance it, wrapping
    /// at the end of the ring: the oldest entry is overwritten.
    pub fn record(&mut self, x: Cell)
        requires
            old(self).wf(),
        ensures
            final(self).wf(),
            final(self).trace@ == old(self).trace@.update(old(self).p as int, x),
            final(self).p == (old(self).p + 1) % (NTRACE as int),
    {
        self.trace[self.p] = x;
        self.p = (self.p + 1) % NTRACE;
    }
}

/// Build the trace ring: every entry cleared to `NIL`, position at the
/// start.
pub fn alloc_tracevec() -> (t: Trace)
    ensures
        t.wf(),
        t.p == 0,
        forall|i: int| 0 <= i < NTRACE ==> #[trigger] t.trace@[i] == NIL,
{
    let mut trace: Vec<Cell> = Vec::new();
    let mut i: usize = 0;
    while i < NTRACE
        invariant
            i <= NTRACE,
            trace@.len() == i,
            forall|j: int| 0 <= j < i ==> #[trigger] trace@[j] == NIL,
        decreases NTRACE - i,
    {
        trace.push(NIL);
        i = i + 1;
    }
    Trace { trace, p: 0 }
}

/// Clear every entry of the ring back to `NIL`.
pub fn clrtrace(t: &mut Trace)
    requires
        old(t).wf(),
    ensures
        final(t).wf(),
        final(t).p == old(t).p,
        forall|i: int| 0 <= i < NTRACE ==> #[trigger] final(t).trace@[i] == NIL,
{
    let mut i: usize = 0;
    while i < NTRACE
        invariant
            i <= NTRACE,
            t.trace@.len() == NTRACE,
            t.p == old(t).p,
            t.p < NTRACE,
            forall|j: int| 0 <= j < i ==> #[trigger] t.trace@[j] == NIL,
        decreases NTRACE - i,
    {
        t.trace[i] = NIL;
        i = i + 1;
    }
}

/// Whether the ring holds any recorded call at all: true exactly when some
/// entry differs from the cleared value.
pub fn gottrace(t: &Trace) -> (r: bool)
    requires
        t.wf(),
    ensures
        r == exists|i: int| 0 <= i < NTRACE && #[trigger] t.trace@[i] != NIL,
{
    let mut i: usize = 0;
    while i < NTRACE
        invariant
            i <= NTRACE,
            t.trace@.len() == NTRACE,
            forall|j: int| 0 <= j < i ==> #[trigger] t.trace@[j] == NIL,
        decreases NTRACE - i,
    {
        if t.trace[i] != NIL {
            return true;
        }
        i = i + 1;
    }
    false
}

} // verus!
