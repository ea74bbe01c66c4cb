//! The node pool: three equal-length parallel arrays (`car`, `cdr`, `tag`)
//! of fixed capacity, plus an explicit free list of slot indices.  Every
//! compound or atomic heap object of the runtime lives in one slot of this
//! pool; allocation draws a slot from the free list and the collector's
//! sweep phase puts unreachable slots back.

use vstd::prelude::*;
use crate::cell::Cell;
use crate::cell::NIL;

verus! {

/// Fixed capacity of the node pool.
pub const NNODES: usize = 262144;

/// The parallel-array pair/atom heap with its free list.
pub struct NodePool {
    pub cars: Vec<Cell>,
    pub cdrs: Vec<Cell>,
    pub tags: Vec<Cell>,
    pub free: Vec<Cell>,
}

impl NodePool {
    /// Number of slots in the pool.
    pub open spec fn cap(self) -> int {
        self.cars.len() as int
    }

    /// Well-formedness: the three arrays have one length, that length fits
    /// in a `Cell`, and the free list holds distinct in-bounds indices.
    pub open spec fn wf(self) -> bool {
        &&& self.cdrs.len() == self.cars.len()
        &&& self.tags.len() == self.cars.len()
        &&& self.cars.len() <= 0x40000000
        &&& self.free@.no_duplicates()
        &&& forall|i: int|
            0 <= i < self.free@.len() ==> 0 <= #[trigger] self.free@[i] < self.cap()
    }

    /// The slot `n` is on the free list: no live cell refers to it.
    pub open spec fn is_free(self, n: Cell) -> bool {
        self.free@.contains(n)
    }

    /// What one allocation does: `r` is drawn from the end of the free
    /// list, its three fields are written, and every other slot keeps its
    /// contents.
    pub open spec fn alloc_post(pre: NodePool, post: NodePool, r: Cell, a: Cell, d: Cell, t: Cell) -> bool {
        &&& 0 <= r < pre.cap()
        &&& pre.free@.len() > 0
        &&& r == pre.free@.last()
        &&& post.free@ =~= pre.free@.drop_last()
        &&& post.cars@ =~= pre.cars@.update(r as int, a)
        &&& post.cdrs@ =~= pre.cdrs@.update(r as int, d)
        &&& post.tags@ =~= pre.tags@.update(r as int, t)
    }

    /// Draw the next free slot and write the given `car`, `cdr` and tag
    /// word into it.
    pub fn alloc_node(&mut self, a: Cell, d: Cell, t: Cell) -> (r: Cell)
        requires
            old(self).wf(),
            old(self).free@.len() > 0,
        ensures
            final(self).wf(),
            NodePool::alloc_post(*old(self), *final(self), r, a, d, t),
            final(self).tags@[r as int] == t,
            final(self).cars@[r as int] == a,
            final(self).cdrs@[r as int] == d,
            !final(self).is_free(r),
            final(self).cap() == old(self).cap(),
            final(self).free@.len() == old(self).free@.len() - 1,
    {
        let n = self.free.len();
        let r = self.free[n - 1];
        self.free.pop();
        let ri = r as usize;
        self.cars[ri] = a;
        self.cdrs[ri] = d;
        self.tags[ri] = t;
        proof {
            assert(old(self).free@.drop_last().no_duplicates());
            assert forall|i: int| 0 <= i < self.free@.len()
                implies 0 <= #[trigger] self.free@[i] < self.cap() by {
                assert(self.free@[i] == old(self).free@[i]);
            }
            if self.free@.contains(r) {
                let i = choose|i: int| 0 <= i < self.free@.len() && self.free@[i] == r;
                assert(old(self).free@[i] == old(self).free@[old(self).free@.len() - 1]);
            }
        }
        r
    }

    /// Read the `car` field of slot `n`.
    pub fn get_car(&self, n: Cell) -> (r: Cell)
        requires
            self.wf(),
            0 <= n < self.cap(),
        ensures
            r == self.cars@[n as int],
    {
        self.cars[n as usize]
    }

    /// Read the `cdr` field of slot `n`.
    pub fn get_cdr(&self, n: Cell) -> (r: Cell)
        requires
            self.wf(),
            0 <= n < self.cap(),
        ensures
            r == self.cdrs@[n as int],
    {
        self.cdrs[n as usize]
    }

    /// Read the tag word of slot `n`.
    pub fn get_tag(&self, n: Cell) -> (r: Cell)
        requires
            self.wf(),
            0 <= n < self.cap(),
        ensures
            r == self.tags@[n as int],
    {
        self.tags[n as usize]
    }

    /// Write the `car` field of slot `n`; nothing else changes.
    pub fn set_car(&mut self, n: Cell, v: Cell)
        requires
            old(self).wf(),
            0 <= n < old(self).cap(),
        ensures
            final(self).wf(),
            final(self).cars@ == old(self).cars@.update(n as int, v),
            final(self).cdrs@ == old(self).cdrs@,
            final(self).tags@ == old(self).tags@,
            final(self).free@ == old(self).free@,
            final(self).cap() == old(self).cap(),
    {
        self.cars[n as usize] = v;
    }

    /// Write the `cdr` field of slot `n`; nothing else changes.
    pub fn set_cdr(&mut self, n: Cell, v: Cell)
        requires
            old(self).wf(),
            0 <= n < old(self).cap(),
        ensures
            final(self).wf(),
            final(self).cdrs@ == old(self).cdrs@.update(n as int, v),
            final(self).cars@ == old(self).cars@,
            final(self).tags@ == old(self).tags@,
            final(self).free@ == old(self).free@,
            final(self).cap() == old(self).cap(),
    {
        self.cdrs[n as usize] = v;
    }

    /// Write the tag word of slot `n`; nothing else changes.
    pub fn set_tag(&mut self, n: Cell, v: Cell)
        requires
            old(self).wf(),
            0 <= n < old(self).cap(),
        ensures
            final(self).wf(),
            final(self).tags@ == old(self).tags@.update(n as int, v),
            final(self).cars@ == old(self).cars@,
            final(self).cdrs@ == old(self).cdrs@,
            final(self).free@ == old(self).free@,
            final(self).cap() == old(self).cap(),
    {
        self.tags[n as usize] = v;
    }

    /// How many slots are still free.
    pub fn free_count(&self) -> (r: usize)
        ensures
            r == self.free@.len(),
    {
        self.free.len()
    }
}

/// Two consecutive allocations never hand out one slot twice: the second
/// draw comes from a free list that no longer holds the first slot, and
/// the second write leaves the first slot's fields as the first write put
/// them.
pub proof fn lemma_alloc_no_alias(
    p0: NodePool, p1: NodePool, p2: NodePool,
    r1: Cell, a1: Cell, d1: Cell, t1: Cell,
    r2: Cell, a2: Cell, d2: Cell, t2: Cell,
)
    requires
        p0.wf(),
        NodePool::alloc_post(p0, p1, r1, a1, d1, t1),
        NodePool::alloc_post(p1, p2, r2, a2, d2, t2),
    ensures
        r1 != r2,
        p2.cars@[r1 as int] == a1,
        p2.cdrs@[r1 as int] == d1,
        p2.tags@[r1 as int] == t1,
        p2.cars@[r2 as int] == a2,
        p2.cdrs@[r2 as int] == d2,
        p2.tags@[r2 as int] == t2,
{
    let n0 = p0.free@.len() as int;
    assert(r1 == p0.free@[n0 - 1]);
    assert(r2 == p1.free@[n0 - 2]);
    assert(p1.free@[n0 - 2] == p0.free@[n0 - 2]);
    assert(r1 != r2) by {
        if r1 == r2 {
            assert(p0.free@[n0 - 1] == p0.free@[n0 - 2]);
        }
    }
}

/// A slot that is not free stays not free across an allocation, and keeps
/// its fields: allocation never touches a live cell.
pub proof fn lemma_alloc_preserves_live(
    p0: NodePool, p1: NodePool,
    r: Cell, a: Cell, d: Cell, t: Cell, x: Cell,
)
    requires
        p0.wf(),
        NodePool::alloc_post(p0, p1, r, a, d, t),
        0 <= x < p0.cap(),
        !p0.is_free(x),
    ensures
        !p1.is_free(x),
        x != r,
        p1.cars@[x as int] == p0.cars@[x as int],
        p1.cdrs@[x as int] == p0.cdrs@[x as int],
        p1.tags@[x as int] == p0.tags@[x as int],
{
    let n0 = p0.free@.len() as int;
    assert(p0.free@[n0 - 1] == r);
    assert(p0.free@.contains(r));
    if p1.is_free(x) {
        let i = choose|i: int| 0 <= i < p1.free@.len() && p1.free@[i] == x;
        assert(p0.free@[i] == x);
        assert(p0.free@.contains(x));
    }
}

/// Build the node pool: all three arrays zeroed, every slot on the free
/// list, ordered so that slot 0 is handed out first.  A zero tag word in
/// particular means no slot starts with the transient collector bits
/// set.
pub fn alloc_nodepool() -> (p: NodePool)
    ensures
        p.wf(),
        p.cars@.len() == NNODES,
        p.free@.len() == NNODES,
        forall|i: int| 0 <= i < NNODES ==> #[trigger] p.free@[i] == NNODES - 1 - i,
        forall|n: Cell| 0 <= n < NNODES ==> p.is_free(n),
        forall|i: int| 0 <= i < NNODES ==> #[trigger] p.cars@[i] == 0,
        forall|i: int| 0 <= i < NNODES ==> #[trigger] p.cdrs@[i] == 0,
        forall|i: int| 0 <= i < NNODES ==> #[trigger] p.tags@[i] == 0,
{
    let mut cars: Vec<Cell> = Vec::new();
    let mut cdrs: Vec<Cell> = Vec::new();
    let mut tags: Vec<Cell> = Vec::new();
    let mut free: Vec<Cell> = Vec::new();
    let mut i: usize = 0;
    while i < NNODES
        invariant
            i <= NNODES,
            cars@.len() == i,
            cdrs@.len() == i,
            tags@.len() == i,
            free@.len() == i,
            forall|j: int| 0 <= j < i ==> #[trigger] free@[j] == NNODES - 1 - j,
            forall|j: int| 0 <= j < i ==> #[trigger] cars@[j] == 0,
            forall|j: int| 0 <= j < i ==> #[trigger] cdrs@[j] == 0,
            forall|j: int| 0 <= j < i ==> #[trigger] tags@[j] == 0,
        decreases NNODES - i,
    {
        cars.push(0);
        cdrs.push(0);
        tags.push(0);
        free.push((NNODES - 1 - i) as Cell);
        i = i + 1;
    }
    let p = NodePool { cars, cdrs, tags, free };
    proof {
        assert forall|j: int, k: int|
            0 <= j < p.free@.len() && 0 <= k < p.free@.len() && j != k
            implies p.free@[j] != p.free@[k] by {}
        assert(p.free@.no_duplicates());
        assert forall|n: Cell| 0 <= n < NNODES implies p.is_free(n) by {
            let j = NNODES - 1 - n as int;
            assert(p.free@[j] == n);
        }
    }
    p
}

} // verus!
