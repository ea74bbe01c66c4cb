//! The vector pool: one fixed-capacity flat array of cells, bump-allocated
//! and compacted by the collector.  Strings, symbol print-names, ordinary
//! vectors and bytecode objects keep their contents here.  Each allocated
//! region is prefixed by two header cells: a link back to its owning
//! node-pool atom (used during compaction to fix up the owner's `cdr`) and
//! the region's payload length.  The free space is the single region from
//! `freetop` to the end of the pool.

use vstd::prelude::*;
use crate::cell::Cell;

verus! {

/// Fixed capacity of the vector pool.
pub const NVCELLS: usize = 262144;

/// Number of header cells in front of every region's payload.
pub const VEC_HEADER: usize = 2;

/// The flat cell heap with its bump pointer.
pub struct VecPool {
    pub cells: Vec<Cell>,
    pub freetop: usize,
}

impl VecPool {
    /// Number of cells in the pool.
    pub open spec fn cap(self) -> int {
        self.cells.len() as int
    }

    /// Well-formedness: the bump pointer stays inside the pool and the
    /// capacity fits in a `Cell`.
    pub open spec fn wf(self) -> bool {
        &&& self.freetop <= self.cells.len()
        &&& self.cells.len() <= 0x40000000
    }

    /// The payload of the region at payload offset `o` with length `k`.
    pub open spec fn region(self, o: int, k: int) -> Seq<Cell> {
        self.cells@.subrange(o, o + k)
    }

    /// A payload offset `o` with length `k` names a well-placed allocated
    /// region: headers in bounds, payload below the bump pointer.
    pub open spec fn region_ok(self, o: int, k: int) -> bool {
        &&& VEC_HEADER <= o
        &&& 0 <= k
        &&& o + k <= self.freetop
    }

    /// Room for a payload of `k` cells plus its header.
    pub fn has_room(&self, k: usize) -> (r: bool)
        requires
            self.wf(),
        ensures
            r == (k + VEC_HEADER <= self.cells@.len() - self.freetop),
    {
        k <= self.cells.len() - self.freetop
            && self.cells.len() - self.freetop - k >= VEC_HEADER
    }

    /// Reserve `k + VEC_HEADER` contiguous cells at the bump pointer,
    /// write the owner link and length header, fill the payload, and
    /// return the payload offset.  Everything below the old bump pointer
    /// is untouched.
    pub fn alloc_region(&mut self, owner: Cell, k: usize, fill: Cell) -> (o: usize)
        requires
            old(self).wf(),
            k + VEC_HEADER <= old(self).cells@.len() - old(self).freetop,
        ensures
            final(self).wf(),
            final(self).cells@.len() == old(self).cells@.len(),
            o == old(self).freetop + VEC_HEADER,
            final(self).freetop == o + k,
            final(self).region_ok(o as int, k as int),
            final(self).cells@[o - 2] == owner,
            final(self).cells@[o - 1] == k as i32,
            forall|i: int| o <= i < o + k ==> final(self).cells@[i] == fill,
            forall|i: int| 0 <= i < old(self).freetop ==> final(self).cells@[i] == old(self).cells@[i],
    {
        let base = self.freetop;
        self.cells[base] = owner;
        self.cells[base + 1] = k as i32;
        let o = base + VEC_HEADER;
        let mut i: usize = 0;
        while i < k
            invariant
                i <= k,
                o == base + VEC_HEADER,
                o + k <= self.cells@.len(),
                self.cells@.len() <= 0x40000000,
                self.cells@.len() == old(self).cells@.len(),
                self.freetop == old(self).freetop,
                base == old(self).freetop,
                self.cells@[base as int] == owner,
                self.cells@[base + 1] == k as i32,
                forall|j: int| o <= j < o + i ==> self.cells@[j] == fill,
                forall|j: int| 0 <= j < base ==> self.cells@[j] == old(self).cells@[j],
                forall|j: int| o + i <= j < self.cells@.len() ==> self.cells@[j] == old(self).cells@[j],
            decreases k - i,
        {
            proof {
                assert(o + i < self.cells@.len());
            }
            let j = o + i;
            self.cells[j] = fill;
            i = i + 1;
        }
        self.freetop = o + k;
        o
    }

    /// Read one cell of the pool.
    pub fn get_cell(&self, i: usize) -> (r: Cell)
        requires
            i < self.cells@.len(),
        ensures
            r == self.cells@[i as int],
    {
        self.cells[i]
    }

    /// Write one cell of the pool; nothing else changes.
    pub fn set_cell(&mut self, i: usize, v: Cell)
        requires
            i < old(self).cells@.len(),
        ensures
            final(self).cells@ == old(self).cells@.update(i as int, v),
            final(self).freetop == old(self).freetop,
            final(self).wf() == old(self).wf(),
    {
        self.cells[i] = v;
    }

    /// Read the length header of the region at payload offset `o`.
    pub fn region_len(&self, o: usize) -> (r: Cell)
        requires
            self.wf(),
            VEC_HEADER <= o,
            o <= self.cells@.len(),
        ensures
            r == self.cells@[o - 1],
    {
        self.cells[o - 1]
    }
}

/// Build the vector pool: every cell zeroed, nothing allocated.
pub fn alloc_vecpool() -> (v: VecPool)
    ensures
        v.wf(),
        v.cells@.len() == NVCELLS,
        v.freetop == 0,
        forall|i: int| 0 <= i < NVCELLS ==> #[trigger] v.cells@[i] == 0,
{
    let mut cells: Vec<Cell> = Vec::new();
    let mut i: usize = 0;
    while i < NVCELLS
        invariant
            i <= NVCELLS,
            cells@.len() == i,
            forall|j: int| 0 <= j < i ==> #[trigger] cells@[j] == 0,
        decreases NVCELLS - i,
    {
        cells.push(0);
        i = i + 1;
    }
    VecPool { cells, freetop: 0 }
}

} // verus!
