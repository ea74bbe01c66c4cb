//! The garbage collector: a stop-the-world mark phase over the node pool
//! (an explicit work-list traversal, cycle-tolerant and bounded by the
//! live set), followed by a sweep that links every unmarked slot onto the
//! free list and clears the mark on every survivor.  Vector-pool
//! compaction runs between the two (see the compaction module).

use vstd::prelude::*;
use crate::cell::Cell;
use crate::cell::bit_on;
use crate::cell::lemma_mark_ops;
use crate::cell::NIL;
use crate::cell::ATOM_TAG;
use crate::cell::MARK_TAG;
use crate::cell::VECTOR_TAG;
use crate::cell::T_BYTECODE;
use crate::cell::T_CLOSURE;
use crate::cell::T_VECTOR;
use crate::machine::Machine;
use crate::vecpool::VecPool;
use crate::vecpool::VEC_HEADER;

verus! {

/// Pushing onto a sequence keeps every element it already holds.
pub(crate) proof fn lemma_contains_after_push(w: Seq<Cell>, x: Cell)
    ensures
        forall|c: Cell| w.contains(c) ==> #[trigger] w.push(x).contains(c),
        w.push(x).contains(x),
{
    assert(w.push(x)[w.len() as int] == x);
    assert forall|c: Cell| w.contains(c) implies w.push(x).contains(c) by {
        let i = choose|i: int| 0 <= i < w.len() && w[i] == c;
        assert(w.push(x)[i] == c);
    }
}

/// Push one cell onto the work list; everything already on it stays.
fn work_push(work: &mut Vec<Cell>, x: Cell)
    ensures
        final(work)@ == old(work)@.push(x),
        forall|c: Cell| old(work)@.contains(c) ==> #[trigger] final(work)@.contains(c),
        final(work)@.contains(x),
{
    proof {
        lemma_contains_after_push(work@, x);
    }
    work.push(x);
}

/// Push a run of vector-pool cells onto the work list.
fn push_cells(work: &mut Vec<Cell>, vp: &VecPool, start: usize, count: usize)
    requires
        start + count <= vp.cells@.len(),
        vp.cells@.len() <= 0x40000000,
    ensures
        forall|c: Cell| old(work)@.contains(c) ==> #[trigger] final(work)@.contains(c),
        forall|j: int|
            start <= j < start + count ==> final(work)@.contains(#[trigger] vp.cells@[j]),
        forall|j2: int|
            0 <= j2 < final(work)@.len() ==> old(work)@.contains(#[trigger] final(work)@[j2])
                || (exists|j: int| start <= j < start + count && final(work)@[j2]
                    == vp.cells@[j]),
        forall|j2: int|
            0 <= j2 < old(work)@.len() ==> #[trigger] final(work)@[j2] == old(work)@[j2],
{
    let mut i: usize = 0;
    while i < count
        invariant
            i <= count,
            start + count <= vp.cells@.len(),
            vp.cells@.len() <= 0x40000000,
            forall|c: Cell| old(work)@.contains(c) ==> #[trigger] work@.contains(c),
            forall|j: int|
                start <= j < start + i ==> work@.contains(#[trigger] vp.cells@[j]),
            forall|j2: int|
                0 <= j2 < work@.len() ==> old(work)@.contains(#[trigger] work@[j2])
                    || (exists|j: int| start <= j < start + i && work@[j2] == vp.cells@[j]),
            old(work)@.len() <= work@.len(),
            forall|j2: int|
                0 <= j2 < old(work)@.len() ==> #[trigger] work@[j2] == old(work)@[j2],
        decreases count - i,
    {
        let ghost w0 = work@;
        work_push(work, vp.get_cell(start + i));
        proof {
            assert forall|c: Cell| old(work)@.contains(c) implies work@.contains(c) by {
                assert(w0.contains(c));
            }
            assert forall|j: int| start <= j < start + i + 1
                implies work@.contains(vp.cells@[j]) by {
                if j < start + i {
                    assert(w0.contains(vp.cells@[j]));
                }
            }
            assert forall|j2: int| 0 <= j2 < old(work)@.len()
                implies work@[j2] == old(work)@[j2] by {
                assert(work@[j2] == w0[j2]);
            }
            assert forall|j2: int|
                0 <= j2 < work@.len()
                implies old(work)@.contains(work@[j2]) || (exists|j: int|
                    start <= j < start + i + 1 && work@[j2] == vp.cells@[j]) by {
                if j2 < w0.len() {
                    assert(work@[j2] == w0[j2]);
                    if !old(work)@.contains(w0[j2]) {
                        let j = choose|j: int|
                            start <= j < start + i && w0[j2] == vp.cells@[j];
                        assert(work@[j2] == vp.cells@[j]);
                    }
                } else {
                    assert(work@[j2] == vp.cells@[start + i]);
                }
            }
        }
        i = i + 1;
    }
}

/// How many of the first `n` tag words lack the mark bit: the traversal's
/// termination measure.
spec fn unmarked_count(tags: Seq<i32>, n: int) -> int
    decreases n,
{
    if n <= 0 {
        0
    } else {
        unmarked_count(tags, n - 1) + (if !bit_on(tags[n - 1], MARK_TAG) {
            1int
        } else {
            0int
        })
    }
}

proof fn lemma_unmarked_count_nonneg(tags: Seq<i32>, n: int)
    ensures
        unmarked_count(tags, n) >= 0,
    decreases n,
{
    if n > 0 {
        lemma_unmarked_count_nonneg(tags, n - 1);
    }
}

proof fn lemma_unmarked_count_agree(t1: Seq<i32>, t2: Seq<i32>, n: int)
    requires
        forall|i: int| 0 <= i < n ==> t1[i] == t2[i],
    ensures
        unmarked_count(t1, n) == unmarked_count(t2, n),
    decreases n,
{
    if n > 0 {
        lemma_unmarked_count_agree(t1, t2, n - 1);
    }
}

/// Setting the mark bit on an unmarked slot lowers the measure by one.
proof fn lemma_unmarked_count_update(tags: Seq<i32>, j: int, v: i32, n: int)
    requires
        0 <= j < n,
        n <= tags.len(),
        !bit_on(tags[j], MARK_TAG),
        bit_on(v, MARK_TAG),
    ensures
        unmarked_count(tags.update(j, v), n) == unmarked_count(tags, n) - 1,
    decreases n,
{
    if j == n - 1 {
        assert forall|i: int| 0 <= i < n - 1 implies tags.update(j, v)[i] == tags[i] by {}
        lemma_unmarked_count_agree(tags.update(j, v), tags, n - 1);
    } else {
        lemma_unmarked_count_update(tags, j, v, n - 1);
    }
}

/// The fixed registers of `m` are all on `w`.
spec fn base_roots_in(m: Machine, w: Seq<Cell>) -> bool {
    &&& w.contains(m.acc)
    &&& w.contains(m.env)
    &&& w.contains(m.code)
    &&& w.contains(m.symbols)
    &&& w.contains(m.glob)
    &&& w.contains(m.handlers)
    &&& w.contains(m.s_errval)
    &&& w.contains(m.erritem)
}

/// The first `n` cells of `s` are all on `w`.
spec fn cells_in(s: Seq<Cell>, w: Seq<Cell>, n: int) -> bool {
    forall|j: int| 0 <= j < n ==> w.contains(#[trigger] s[j])
}

/// The code and environment of the first `n` return frames are on `w`.
spec fn rframes_in(s: Seq<crate::machine::Frame>, w: Seq<Cell>, n: int) -> bool {
    forall|j: int|
        0 <= j < n ==> w.contains(#[trigger] s[j].code) && w.contains(s[j].env)
}

/// The tag, environment and code of the first `n` catch frames are on `w`.
spec fn cframes_in(s: Seq<crate::machine::CatchFrame>, w: Seq<Cell>, n: int) -> bool {
    forall|j: int|
        0 <= j < n ==> w.contains(#[trigger] s[j].tag) && w.contains(s[j].env)
            && w.contains(s[j].code)
}

/// The heap successors of slot `i`: exactly the cells the mark traversal
/// pushes when it visits `i`.  A pair offers both fields, a closure its
/// body link, a vector its payload, a bytecode object its literal
/// section; atoms holding plain values or ill-placed links offer nothing.
pub open spec fn succ_of(m: Machine, i: int, c: Cell) -> bool {
    let t = m.pool.tags@[i];
    if bit_on(t, ATOM_TAG) {
        m.pool.cars@[i] == T_CLOSURE && c == m.pool.cdrs@[i]
    } else if bit_on(t, VECTOR_TAG) {
        let o = m.pool.cdrs@[i] as int;
        let ty = m.pool.cars@[i];
        &&& VEC_HEADER <= o
        &&& o <= m.vpool.cells@.len()
        &&& ({
            let k = m.vpool.cells@[o - 1] as int;
            &&& k >= 0
            &&& k <= m.vpool.cells@.len() - o
            &&& if ty == T_VECTOR {
                exists|j: int| o <= j < o + k && #[trigger] m.vpool.cells@[j] == c
            } else if ty == T_BYTECODE && k >= 1 {
                let nl = m.vpool.cells@[o] as int;
                &&& 0 <= nl <= k - 1
                &&& exists|j: int| o + 1 <= j < o + 1 + nl && #[trigger] m.vpool.cells@[j]
                    == c
            } else {
                false
            }
        })
    } else {
        c == m.pool.cars@[i] || c == m.pool.cdrs@[i]
    }
}

/// `c` is reachable from the root set of `m` in at most `k` link steps.
pub open spec fn reach(m: Machine, c: Cell, k: nat) -> bool
    decreases k,
{
    ||| m.is_root(c)
    ||| (k > 0 && exists|p: Cell|
        reach(m, p, (k - 1) as nat) && m.in_pool(p) && #[trigger] succ_of(m, p as int, c))
}

/// No tag word of `m` carries the transient mark: the state between
/// collection cycles.
pub open spec fn heap_unmarked(m: Machine) -> bool {
    forall|i: int|
        0 <= i < m.pool.cap() ==> !bit_on(#[trigger] m.pool.tags@[i], MARK_TAG)
}

/// A root-marked mark set that is closed under heap successors covers
/// everything reachable.
proof fn lemma_reach_closed(m0: Machine, tags1: Seq<i32>, c: Cell, k: nat)
    requires
        forall|r: Cell|
            #[trigger] m0.is_root(r) && m0.in_pool(r) ==> bit_on(tags1[r as int], MARK_TAG),
        forall|i: int, c2: Cell|
            0 <= i < m0.pool.cap() && bit_on(tags1[i], MARK_TAG) && #[trigger] succ_of(
                m0,
                i,
                c2,
            ) && m0.in_pool(c2) ==> bit_on(tags1[c2 as int], MARK_TAG),
        reach(m0, c, k),
        m0.in_pool(c),
    ensures
        bit_on(tags1[c as int], MARK_TAG),
    decreases k,
{
    if m0.is_root(c) {
    } else {
        let p = choose|p: Cell|
            reach(m0, p, (k - 1) as nat) && m0.in_pool(p) && #[trigger] succ_of(
                m0,
                p as int,
                c,
            );
        lemma_reach_closed(m0, tags1, p, (k - 1) as nat);
    }
}

impl Machine {
    /// Mark phase: set the mark bit on every slot reachable from the root
    /// set, by an explicit work-list traversal that follows `car`/`cdr`
    /// links of pairs, the body link of closures, the contents of
    /// vectors, and the literal section of bytecode objects.  Nothing but
    /// tag words changes, tag words only gain the mark bit, and every
    /// in-pool root ends up marked.
    /// Gather the collector's root set onto a work list: every register,
    /// stack entry, saved frame field, table head, port atom and pinned
    /// value.
    #[verifier::rlimit(100)]
    #[verifier::spinoff_prover]
    fn collect_roots(&self) -> (work: Vec<Cell>)
        ensures
            forall|c: Cell| #[trigger] self.is_root(c) ==> work@.contains(c),
            forall|j: int| 0 <= j < work@.len() ==> self.is_root(#[trigger] work@[j]),
    {
        let mut work: Vec<Cell> = Vec::new();
        work_push(&mut work, self.acc);
        work_push(&mut work, self.env);
        work_push(&mut work, self.code);
        work_push(&mut work, self.symbols);
        work_push(&mut work, self.glob);
        work_push(&mut work, self.handlers);
        work_push(&mut work, self.s_errval);
        work_push(&mut work, self.erritem);
        proof {
            assert forall|j2: int| 0 <= j2 < work@.len() implies self.is_root(work@[j2]) by {}
        }
        let mut i: usize = 0;
        while i < self.stack.len()
            invariant
                i <= self.stack@.len(),
                base_roots_in(*self, work@),
                cells_in(self.stack@, work@, i as int),
                forall|j2: int| 0 <= j2 < work@.len() ==> self.is_root(#[trigger] work@[j2]),
            decreases self.stack@.len() - i,
        {
            let ghost wp = work@;
            work_push(&mut work, self.stack[i]);
            proof {
                assert(self.stack@.contains(self.stack@[i as int]));
                assert forall|j2: int| 0 <= j2 < work@.len()
                    implies self.is_root(work@[j2]) by {
                    if j2 < wp.len() {
                        assert(work@[j2] == wp[j2]);
                    }
                }
            }
            i = i + 1;
        }
        let mut i: usize = 0;
        while i < self.pinned.len()
            invariant
                i <= self.pinned@.len(),
                base_roots_in(*self, work@),
                cells_in(self.stack@, work@, self.stack@.len() as int),
                cells_in(self.pinned@, work@, i as int),
                forall|j2: int| 0 <= j2 < work@.len() ==> self.is_root(#[trigger] work@[j2]),
            decreases self.pinned@.len() - i,
        {
            let ghost wp = work@;
            work_push(&mut work, self.pinned[i]);
            proof {
                assert(self.pinned@.contains(self.pinned@[i as int]));
                assert forall|j2: int| 0 <= j2 < work@.len()
                    implies self.is_root(work@[j2]) by {
                    if j2 < wp.len() {
                        assert(work@[j2] == wp[j2]);
                    }
                }
            }
            i = i + 1;
        }
        let mut i: usize = 0;
        while i < self.port_atoms.len()
            invariant
                i <= self.port_atoms@.len(),
                base_roots_in(*self, work@),
                cells_in(self.stack@, work@, self.stack@.len() as int),
                cells_in(self.pinned@, work@, self.pinned@.len() as int),
                cells_in(self.port_atoms@, work@, i as int),
                forall|j2: int| 0 <= j2 < work@.len() ==> self.is_root(#[trigger] work@[j2]),
            decreases self.port_atoms@.len() - i,
        {
            let ghost wp = work@;
            work_push(&mut work, self.port_atoms[i]);
            proof {
                assert(self.port_atoms@.contains(self.port_atoms@[i as int]));
                assert forall|j2: int| 0 <= j2 < work@.len()
                    implies self.is_root(work@[j2]) by {
                    if j2 < wp.len() {
                        assert(work@[j2] == wp[j2]);
                    }
                }
            }
            i = i + 1;
        }
        let mut i: usize = 0;
        while i < self.rstack.len()
            invariant
                i <= self.rstack@.len(),
                base_roots_in(*self, work@),
                cells_in(self.stack@, work@, self.stack@.len() as int),
                cells_in(self.pinned@, work@, self.pinned@.len() as int),
                cells_in(self.port_atoms@, work@, self.port_atoms@.len() as int),
                rframes_in(self.rstack@, work@, i as int),
                forall|j2: int| 0 <= j2 < work@.len() ==> self.is_root(#[trigger] work@[j2]),
            decreases self.rstack@.len() - i,
        {
            let ghost wa = work@;
            work_push(&mut work, self.rstack[i].code);
            let ghost wb = work@;
            work_push(&mut work, self.rstack[i].env);
            proof {
                assert(crate::machine::frame_refs(self.rstack@[i as int],
                    self.rstack@[i as int].code));
                assert(crate::machine::frame_refs(self.rstack@[i as int],
                    self.rstack@[i as int].env));
                assert forall|j2: int| 0 <= j2 < work@.len()
                    implies self.is_root(work@[j2]) by {
                    if j2 < wa.len() {
                        assert(work@[j2] == wa[j2]);
                    } else if j2 == wa.len() {
                        assert(work@[j2] == self.rstack@[i as int].code);
                    } else {
                        assert(work@[j2] == self.rstack@[i as int].env);
                    }
                }
                assert forall|j: int| 0 <= j < i + 1 implies work@.contains(
                    #[trigger] self.rstack@[j].code) && work@.contains(self.rstack@[j].env) by {
                    if j < i as int {
                        assert(wa.contains(self.rstack@[j].code));
                        assert(wb.contains(self.rstack@[j].code));
                        assert(wa.contains(self.rstack@[j].env));
                        assert(wb.contains(self.rstack@[j].env));
                    } else {
                        assert(wb.contains(self.rstack@[j].code));
                    }
                }
            }
            i = i + 1;
        }
        let mut i: usize = 0;
        while i < self.cstack.len()
            invariant
                i <= self.cstack@.len(),
                base_roots_in(*self, work@),
                cells_in(self.stack@, work@, self.stack@.len() as int),
                cells_in(self.pinned@, work@, self.pinned@.len() as int),
                cells_in(self.port_atoms@, work@, self.port_atoms@.len() as int),
                rframes_in(self.rstack@, work@, self.rstack@.len() as int),
                cframes_in(self.cstack@, work@, i as int),
                forall|j2: int| 0 <= j2 < work@.len() ==> self.is_root(#[trigger] work@[j2]),
            decreases self.cstack@.len() - i,
        {
            let ghost wa = work@;
            work_push(&mut work, self.cstack[i].tag);
            let ghost wb = work@;
            work_push(&mut work, self.cstack[i].env);
            let ghost wc = work@;
            work_push(&mut work, self.cstack[i].code);
            proof {
                assert(crate::machine::cframe_refs(self.cstack@[i as int],
                    self.cstack@[i as int].tag));
                assert(crate::machine::cframe_refs(self.cstack@[i as int],
                    self.cstack@[i as int].env));
                assert(crate::machine::cframe_refs(self.cstack@[i as int],
                    self.cstack@[i as int].code));
                assert forall|j2: int| 0 <= j2 < work@.len()
                    implies self.is_root(work@[j2]) by {
                    if j2 < wa.len() {
                        assert(work@[j2] == wa[j2]);
                    } else if j2 == wa.len() {
                        assert(work@[j2] == self.cstack@[i as int].tag);
                    } else if j2 == wa.len() + 1 {
                        assert(work@[j2] == self.cstack@[i as int].env);
                    } else {
                        assert(work@[j2] == self.cstack@[i as int].code);
                    }
                }
                assert forall|j: int| 0 <= j < i + 1 implies work@.contains(
                    #[trigger] self.cstack@[j].tag) && work@.contains(self.cstack@[j].env)
                    && work@.contains(self.cstack@[j].code) by {
                    if j < i as int {
                        assert(wa.contains(self.cstack@[j].tag));
                        assert(wb.contains(self.cstack@[j].tag));
                        assert(wc.contains(self.cstack@[j].tag));
                        assert(wa.contains(self.cstack@[j].env));
                        assert(wb.contains(self.cstack@[j].env));
                        assert(wc.contains(self.cstack@[j].env));
                        assert(wa.contains(self.cstack@[j].code));
                        assert(wb.contains(self.cstack@[j].code));
                        assert(wc.contains(self.cstack@[j].code));
                    } else {
                        assert(wb.contains(self.cstack@[j].tag));
                        assert(wc.contains(self.cstack@[j].tag));
                        assert(wc.contains(self.cstack@[j].env));
                    }
                }
                assert(cframes_in(self.cstack@, work@, i as int + 1));
            }
            i = i + 1;
        }
        proof {
            assert forall|c: Cell| self.is_root(c) implies work@.contains(c) by {
                if self.stack@.contains(c) {
                    let j = choose|j: int| 0 <= j < self.stack@.len() && self.stack@[j] == c;
                    assert(work@.contains(self.stack@[j]));
                } else if self.pinned@.contains(c) {
                    let j = choose|j: int| 0 <= j < self.pinned@.len() && self.pinned@[j] == c;
                    assert(work@.contains(self.pinned@[j]));
                } else if self.port_atoms@.contains(c) {
                    let j = choose|j: int|
                        0 <= j < self.port_atoms@.len() && self.port_atoms@[j] == c;
                    assert(work@.contains(self.port_atoms@[j]));
                }
            }
        }
        work
    }

    /// Mark phase: set the mark bit on every slot reachable from the root
    /// set, by an explicit work-list traversal that follows `car`/`cdr`
    /// links of pairs, the body link of closures, the contents of
    /// vectors, and the literal section of bytecode objects.  Nothing but
    /// tag words changes, tag words only gain the mark bit, and every
    /// in-pool root ends up marked.
    #[verifier::rlimit(100)]
    #[verifier::spinoff_prover]
    pub fn mark(&mut self)
        requires
            old(self).wf(),
        ensures
            final(self).wf(),
            Machine::regs_same(*old(self), *final(self)),
            final(self).pool.cap() == old(self).pool.cap(),
            final(self).pool.cars@ == old(self).pool.cars@,
            final(self).pool.cdrs@ == old(self).pool.cdrs@,
            final(self).pool.free@ == old(self).pool.free@,
            final(self).vpool == old(self).vpool,
            forall|i: int|
                0 <= i < old(self).pool.cap() ==> #[trigger] final(self).pool.tags@[i]
                    == old(self).pool.tags@[i]
                    || final(self).pool.tags@[i] == (old(self).pool.tags@[i] | MARK_TAG),
            forall|c: Cell|
                #[trigger] old(self).is_root(c) && old(self).in_pool(c)
                    ==> bit_on(final(self).pool.tags@[c as int], MARK_TAG),
            heap_unmarked(*old(self)) ==> forall|c: Cell, k: nat|
                reach(*old(self), c, k) && old(self).in_pool(c) ==> bit_on(
                    final(self).pool.tags@[c as int],
                    MARK_TAG,
                ),
            heap_unmarked(*old(self)) ==> forall|c: Cell|
                old(self).in_pool(c) && bit_on(final(self).pool.tags@[c as int], MARK_TAG)
                    ==> exists|k: nat| #[trigger] reach(*old(self), c, k),
    {
        let mut work: Vec<Cell> = self.collect_roots();
        proof {
            assert forall|j2: int|
                0 <= j2 < work@.len() && old(self).in_pool(work@[j2])
                implies exists|k: nat| reach(*old(self), #[trigger] work@[j2], k) by {
                assert(reach(*old(self), work@[j2], 0));
            }
        }
                while work.len() > 0
            invariant
                old(self).wf(),
                self.wf(),
                Machine::regs_same(*old(self), *self),
                self.pool.cap() == old(self).pool.cap(),
                self.pool.cars@ == old(self).pool.cars@,
                self.pool.cdrs@ == old(self).pool.cdrs@,
                self.pool.free@ == old(self).pool.free@,
                self.vpool == old(self).vpool,
                forall|i: int|
                    0 <= i < self.pool.cap() ==> #[trigger] self.pool.tags@[i]
                        == old(self).pool.tags@[i]
                        || self.pool.tags@[i] == (old(self).pool.tags@[i] | MARK_TAG),
                forall|c: Cell|
                    #[trigger] old(self).is_root(c) && old(self).in_pool(c)
                        ==> bit_on(self.pool.tags@[c as int], MARK_TAG) || work@.contains(c),
                heap_unmarked(*old(self)) ==> forall|i: int, c: Cell|
                    0 <= i < self.pool.cap() && bit_on(self.pool.tags@[i], MARK_TAG)
                        && #[trigger] succ_of(*old(self), i, c) && old(self).in_pool(c)
                        ==> bit_on(self.pool.tags@[c as int], MARK_TAG) || work@.contains(c),
                forall|j2: int|
                    0 <= j2 < work@.len() && old(self).in_pool(work@[j2]) ==> exists|k: nat|
                        reach(*old(self), #[trigger] work@[j2], k),
                heap_unmarked(*old(self)) ==> forall|i: int|
                    0 <= i < self.pool.cap() && #[trigger] bit_on(self.pool.tags@[i],
                    MARK_TAG) ==> exists|k: nat| #[trigger] reach(*old(self), i as i32, k),
            decreases unmarked_count(self.pool.tags@, self.pool.cap()), work@.len(),

        {
            let ghost tags0 = self.pool.tags@;
            proof {
                lemma_unmarked_count_nonneg(tags0, self.pool.cap());
            }
            let ghost w0 = work@;
            let n = work[work.len() - 1];
            work.pop();
            proof {
                assert(work@ == w0.drop_last());
                assert forall|c: Cell|
                    #[trigger] old(self).is_root(c) && old(self).in_pool(c)
                        && !bit_on(self.pool.tags@[c as int], MARK_TAG)
                        && c != n
                    implies work@.contains(c) by {
                    let i = choose|i: int| 0 <= i < w0.len() && w0[i] == c;
                    assert(w0[w0.len() - 1] == n);
                    assert(i < w0.len() - 1);
                    assert(work@[i] == c);
                }
            }
            let ghost w1 = work@;
            if n >= 0 && (n as usize) < self.pool.cars.len() {
                let t = self.pool.get_tag(n);
                if (t & MARK_TAG) == 0 {
                    proof {
                        lemma_mark_ops(t);
                        if self.pool.tags@[n as int] == (old(self).pool.tags@[n as int]
                            | MARK_TAG) {
                            lemma_mark_ops(old(self).pool.tags@[n as int]);
                        }
                    }
                    self.pool.set_tag(n, t | MARK_TAG);
                    proof {
                        lemma_unmarked_count_update(tags0, n as int, t | MARK_TAG,
                            self.pool.cap());
                        lemma_unmarked_count_nonneg(self.pool.tags@, self.pool.cap());
                    }
                    if (t & ATOM_TAG) != 0 {
                        if self.pool.get_car(n) == T_CLOSURE {
                            work_push(&mut work, self.pool.get_cdr(n));
                        }
                    } else if (t & VECTOR_TAG) != 0 {
                        let ty = self.pool.get_car(n);
                        let o = self.pool.get_cdr(n);
                        if o >= VEC_HEADER as i32 && (o as usize) <= self.vpool.cells.len() {
                            let ou = o as usize;
                            let k = self.vpool.get_cell(ou - 1);
                            if k >= 0 && (k as usize) <= self.vpool.cells.len() - ou {
                                let ku = k as usize;
                                if ty == T_VECTOR {
                                    push_cells(&mut work, &self.vpool, ou, ku);
                                } else if ty == T_BYTECODE && ku >= 1 {
                                    let nl = self.vpool.get_cell(ou);
                                    if nl >= 0 && (nl as usize) <= ku - 1 {
                                        push_cells(&mut work, &self.vpool, ou + 1, nl as usize);
                                    }
                                }
                            }
                        }
                    } else {
                        work_push(&mut work, self.pool.get_car(n));
                        work_push(&mut work, self.pool.get_cdr(n));
                    }
                }
            }
            proof {
                // Everything on the work list stays reachable: surviving
                // entries were reachable before, and anything pushed this
                // round is a successor of the reachable cell just marked.
                assert forall|j2: int|
                    0 <= j2 < work@.len() && old(self).in_pool(work@[j2])
                    implies exists|k: nat| reach(*old(self), #[trigger] work@[j2], k) by {
                    if 0 <= n && (n as int) < self.pool.cap() {
                        if old(self).in_pool(n) && !bit_on(tags0[n as int], MARK_TAG) {
                            lemma_mark_ops(old(self).pool.tags@[n as int]);
                            assert(w0[w0.len() - 1] == n);
                            let kn = choose|k: nat| reach(*old(self), n, k);
                            if j2 < w1.len() {
                                assert(work@[j2] == w1[j2]);
                                assert(w1[j2] == w0[j2]);
                            } else {
                                let v = work@[j2];
                                if bit_on(old(self).pool.tags@[n as int], ATOM_TAG) {
                                    assert(v == old(self).pool.cdrs@[n as int]);
                                    assert(old(self).pool.cars@[n as int] == T_CLOSURE);
                                    assert(succ_of(*old(self), n as int, v));
                                    assert(reach(*old(self), v, (kn + 1) as nat));
                                } else if bit_on(old(self).pool.tags@[n as int],
                                    VECTOR_TAG) {
                                    if w1.contains(v) {
                                        let idx = choose|idx: int|
                                            0 <= idx < w1.len() && w1[idx] == v;
                                        assert(w0[idx] == v);
                                        assert(exists|k: nat|
                                            #[trigger] reach(*old(self), w0[idx], k));
                                    } else {
                                        assert(succ_of(*old(self), n as int, v));
                                        assert(reach(*old(self), v, (kn + 1) as nat));
                                    }
                                } else {
                                    if j2 == w1.len() {
                                        assert(v == old(self).pool.cars@[n as int]);
                                    } else {
                                        assert(v == old(self).pool.cdrs@[n as int]);
                                    }
                                    assert(succ_of(*old(self), n as int, v));
                                    assert(reach(*old(self), v, (kn + 1) as nat));
                                }
                            }
                        } else {
                            assert(work@[j2] == w0[j2]);
                        }
                    } else {
                        assert(work@[j2] == w0[j2]);
                    }
                }
                if heap_unmarked(*old(self)) {
                    let ghost did_mark = 0 <= n && (n as int) < self.pool.cap()
                        && !bit_on(tags0[n as int], MARK_TAG);
                    assert forall|i: int|
                        0 <= i < self.pool.cap() && #[trigger] bit_on(self.pool.tags@[i],
                        MARK_TAG)
                        implies exists|k: nat| #[trigger] reach(*old(self), i as i32, k) by {
                        if did_mark && i == n as int {
                            assert(w0[w0.len() - 1] == n);
                            assert(old(self).in_pool(w0[w0.len() - 1]));
                            assert(exists|k: nat|
                                #[trigger] reach(*old(self), w0[w0.len() - 1], k));
                            assert(i as i32 == n);
                        } else {
                            assert(bit_on(tags0[i], MARK_TAG));
                        }
                    }
                    assert forall|i: int, c: Cell|
                        0 <= i < self.pool.cap() && bit_on(self.pool.tags@[i], MARK_TAG)
                            && #[trigger] succ_of(*old(self), i, c) && old(self).in_pool(c)
                            && !bit_on(self.pool.tags@[c as int], MARK_TAG)
                        implies work@.contains(c) by {
                        if did_mark && i == n as int {
                            lemma_mark_ops(old(self).pool.tags@[n as int]);
                            if bit_on(old(self).pool.tags@[n as int], ATOM_TAG) {
                                assert(work@.contains(old(self).pool.cdrs@[n as int]));
                            } else if bit_on(old(self).pool.tags@[n as int], VECTOR_TAG) {
                                let o = old(self).pool.cdrs@[n as int] as int;
                                let ty = old(self).pool.cars@[n as int];
                                let kk = old(self).vpool.cells@[o - 1] as int;
                                if ty == T_VECTOR {
                                    let j = choose|j: int|
                                        o <= j < o + kk && old(self).vpool.cells@[j] == c;
                                    assert(work@.contains(old(self).vpool.cells@[j]));
                                } else {
                                    let nl = old(self).vpool.cells@[o] as int;
                                    let j = choose|j: int|
                                        o + 1 <= j < o + 1 + nl && old(self).vpool.cells@[j]
                                            == c;
                                    assert(work@.contains(old(self).vpool.cells@[j]));
                                }
                            } else {
                                assert(work@.contains(old(self).pool.cars@[n as int])
                                    && work@.contains(old(self).pool.cdrs@[n as int]));
                            }
                        } else {
                            // `i` was already marked at the top of this
                            // round, so its successor was marked or on
                            // the pre-pop work list.
                            assert(bit_on(tags0[i], MARK_TAG));
                            assert(!bit_on(tags0[c as int], MARK_TAG));
                            assert(w0.contains(c));
                            let ji = choose|ji: int| 0 <= ji < w0.len() && w0[ji] == c;
                            if ji < w0.len() - 1 {
                                assert(w1[ji] == c);
                                assert(w1.contains(c));
                            } else {
                                assert(c == n);
                                assert(false);
                            }
                        }
                    }
                }
            }
        }
        proof {
            if heap_unmarked(*old(self)) {
                assert forall|c: Cell, k: nat|
                    reach(*old(self), c, k) && old(self).in_pool(c)
                    implies bit_on(self.pool.tags@[c as int], MARK_TAG) by {
                    lemma_reach_closed(*old(self), self.pool.tags@, c, k);
                }
            }
        }
    }

    /// Sweep phase: every unmarked slot is cleared and linked onto a
    /// fresh free list (in ascending slot order), and every marked slot
    /// keeps its fields with the mark bit cleared for the next cycle.
    pub fn sweep(&mut self)
        requires
            old(self).wf(),
        ensures
            final(self).wf(),
            Machine::regs_same(*old(self), *final(self)),
            final(self).pool.cap() == old(self).pool.cap(),
            final(self).vpool == old(self).vpool,
            forall|i: int|
                0 <= i < old(self).pool.cap() && bit_on(old(self).pool.tags@[i], MARK_TAG)
                    ==> #[trigger] final(self).pool.tags@[i]
                        == (old(self).pool.tags@[i] & !MARK_TAG)
                        && final(self).pool.cars@[i] == old(self).pool.cars@[i]
                        && final(self).pool.cdrs@[i] == old(self).pool.cdrs@[i],
            forall|c: Cell|
                #[trigger] final(self).pool.is_free(c) <==> (0 <= c < old(self).pool.cap()
                    && !bit_on(old(self).pool.tags@[c as int], MARK_TAG)),
            forall|i: int|
                0 <= i < old(self).pool.cap() && !bit_on(old(self).pool.tags@[i], MARK_TAG)
                    ==> #[trigger] final(self).pool.tags@[i] == 0
                        && final(self).pool.cars@[i] == NIL
                        && final(self).pool.cdrs@[i] == NIL,
            heap_unmarked(*final(self)),
    {
        let cap = self.pool.cars.len();
        let mut newfree: Vec<Cell> = Vec::new();
        let mut i: usize = 0;
        while i < cap
            invariant
                old(self).wf(),
                Machine::regs_same(*old(self), *self),
                self.pool.wf(),
                self.vpool == old(self).vpool,
                self.trace == old(self).trace,
                self.ports@ == old(self).ports@,
                self.port_atoms@ == old(self).port_atoms@,
                cap == self.pool.cap(),
                cap == old(self).pool.cap(),
                cap <= 0x40000000,
                i <= cap,
                forall|j: int|
                    0 <= j < i && bit_on(old(self).pool.tags@[j], MARK_TAG)
                        ==> #[trigger] self.pool.tags@[j]
                            == (old(self).pool.tags@[j] & !MARK_TAG)
                            && self.pool.cars@[j] == old(self).pool.cars@[j]
                            && self.pool.cdrs@[j] == old(self).pool.cdrs@[j],
                forall|j: int|
                    0 <= j < i && !bit_on(old(self).pool.tags@[j], MARK_TAG)
                        ==> #[trigger] self.pool.tags@[j] == 0 && self.pool.cars@[j] == NIL
                            && self.pool.cdrs@[j] == NIL,
                forall|j: int|
                    i <= j < cap ==> #[trigger] self.pool.tags@[j] == old(self).pool.tags@[j]
                        && self.pool.cars@[j] == old(self).pool.cars@[j]
                        && self.pool.cdrs@[j] == old(self).pool.cdrs@[j],
                forall|c: Cell|
                    #[trigger] newfree@.contains(c) <==> (0 <= c < i
                        && !bit_on(old(self).pool.tags@[c as int], MARK_TAG)),
                forall|a: int, b: int|
                    0 <= a < b < newfree@.len() ==> #[trigger] newfree@[a]
                        < #[trigger] newfree@[b],
                forall|j: int| 0 <= j < newfree@.len() ==> 0 <= #[trigger] newfree@[j] < i,
            decreases cap - i,
        {
            let n = i as i32;
            proof {
                assert(n as int == i as int);
            }
            let t = self.pool.get_tag(n);
            if (t & MARK_TAG) != 0 {
                proof {
                    lemma_mark_ops(t);
                    assert(!newfree@.contains(n)) by {
                        if newfree@.contains(n) {
                            let j = choose|j: int|
                                0 <= j < newfree@.len() && newfree@[j] == n;
                            assert(newfree@[j] < i);
                        }
                    }
                }
                self.pool.set_tag(n, t & !MARK_TAG);
            } else {
                self.pool.set_car(n, NIL);
                self.pool.set_cdr(n, NIL);
                self.pool.set_tag(n, 0);
                let ghost w0 = newfree@;
                newfree.push(n);
                proof {
                    lemma_contains_after_push(w0, n);
                    assert forall|c: Cell| newfree@.contains(c) implies (0 <= c < i + 1
                        && !bit_on(old(self).pool.tags@[c as int], MARK_TAG)) by {
                        let j = choose|j: int| 0 <= j < newfree@.len() && newfree@[j] == c;
                        if j < newfree@.len() - 1 {
                            assert(w0[j] == c);
                            assert(w0.contains(c));
                        }
                    }
                }
            }
            proof {
                assert(t == old(self).pool.tags@[i as int]);
                assert forall|j: int|
                    0 <= j < i + 1 && bit_on(old(self).pool.tags@[j], MARK_TAG)
                    implies self.pool.tags@[j] == (old(self).pool.tags@[j] & !MARK_TAG)
                        && self.pool.cars@[j] == old(self).pool.cars@[j]
                        && self.pool.cdrs@[j] == old(self).pool.cdrs@[j] by {
                    if j == i as int {
                        assert(bit_on(t, MARK_TAG));
                        assert(self.pool.tags@[j] == (t & !MARK_TAG));
                        assert(self.pool.cars@[j] == old(self).pool.cars@[j]);
                        assert(self.pool.cdrs@[j] == old(self).pool.cdrs@[j]);
                    } else {
                        assert(self.pool.tags@[j] == (old(self).pool.tags@[j] & !MARK_TAG));
                        assert(self.pool.cars@[j] == old(self).pool.cars@[j]);
                        assert(self.pool.cdrs@[j] == old(self).pool.cdrs@[j]);
                    }
                }
                assert forall|j: int|
                    i + 1 <= j < cap
                    implies self.pool.tags@[j] == old(self).pool.tags@[j]
                        && self.pool.cars@[j] == old(self).pool.cars@[j]
                        && self.pool.cdrs@[j] == old(self).pool.cdrs@[j] by {
                }
                assert forall|j: int|
                    0 <= j < i + 1 && !bit_on(old(self).pool.tags@[j], MARK_TAG)
                    implies self.pool.tags@[j] == 0 && self.pool.cars@[j] == NIL
                        && self.pool.cdrs@[j] == NIL by {
                    if j == i as int {
                        assert(!bit_on(t, MARK_TAG));
                    } else {
                        assert(self.pool.tags@[j] == 0);
                        assert(self.pool.cars@[j] == NIL);
                        assert(self.pool.cdrs@[j] == NIL);
                    }
                }
            }
            i = i + 1;
        }
        self.pool.free = newfree;
        proof {
            assert forall|a: int, b: int|
                0 <= a < self.pool.free@.len() && 0 <= b < self.pool.free@.len() && a != b
                implies self.pool.free@[a] != self.pool.free@[b] by {
                if a < b {
                    assert(self.pool.free@[a] < self.pool.free@[b]);
                } else {
                    assert(self.pool.free@[b] < self.pool.free@[a]);
                }
            }
            assert(self.pool.free@.no_duplicates());
            assert forall|i: int| 0 <= i < self.pool.cap()
                implies !bit_on(#[trigger] self.pool.tags@[i], MARK_TAG) by {
                crate::cell::lemma_tag_constants();
                lemma_mark_ops(old(self).pool.tags@[i]);
                if bit_on(old(self).pool.tags@[i], MARK_TAG) {
                    assert(self.pool.tags@[i] == (old(self).pool.tags@[i] & !MARK_TAG));
                } else {
                    assert(self.pool.tags@[i] == 0);
                }
            }
        }
    }

    /// One full collection cycle: mark from the roots, then sweep.  Every
    /// cell on the root set survives with its fields intact (its tag word
    /// merely loses the transient mark bit), and afterwards the free list
    /// holds exactly the slots the mark phase did not reach.  On a heap
    /// whose transient marks are clear — the state between cycles — the
    /// cycle is sound and complete: a slot ends up free exactly when no
    /// chain of links led to it from the root set, and every reachable
    /// cell keeps all of its fields.
    pub fn gc(&mut self)
        requires
            old(self).wf(),
        ensures
            final(self).wf(),
            Machine::regs_same(*old(self), *final(self)),
            final(self).pool.cap() == old(self).pool.cap(),
            final(self).vpool == old(self).vpool,
            forall|c: Cell|
                #[trigger] old(self).is_root(c) && old(self).in_pool(c)
                    ==> !final(self).pool.is_free(c)
                        && final(self).car_s(c) == old(self).car_s(c)
                        && final(self).cdr_s(c) == old(self).cdr_s(c)
                        && final(self).tag_s(c) == (old(self).tag_s(c) & !MARK_TAG),
            heap_unmarked(*old(self)) ==> forall|c: Cell, k: nat|
                reach(*old(self), c, k) && old(self).in_pool(c) ==> !final(self).pool.is_free(
                    c,
                ) && final(self).car_s(c) == old(self).car_s(c) && final(self).cdr_s(c)
                    == old(self).cdr_s(c) && final(self).tag_s(c) == old(self).tag_s(c),
            heap_unmarked(*old(self)) ==> forall|c: Cell|
                old(self).in_pool(c) ==> (final(self).pool.is_free(c) <==> !(exists|k: nat|
                    #[trigger] reach(*old(self), c, k))),
            heap_unmarked(*final(self)),
    {
        self.mark();
        let ghost mid = *self;
        self.sweep();
        proof {
            if heap_unmarked(*old(self)) {
                assert forall|c: Cell, k: nat|
                    reach(*old(self), c, k) && old(self).in_pool(c)
                    implies !self.pool.is_free(c) && self.car_s(c) == old(self).car_s(c)
                        && self.cdr_s(c) == old(self).cdr_s(c) && self.tag_s(c)
                        == old(self).tag_s(c) by {
                    assert(bit_on(mid.pool.tags@[c as int], MARK_TAG));
                    lemma_mark_ops(old(self).pool.tags@[c as int]);
                    assert(self.pool.tags@[c as int] == (mid.pool.tags@[c as int]
                        & !MARK_TAG));
                    assert(self.pool.cars@[c as int] == mid.pool.cars@[c as int]);
                    assert(self.pool.cdrs@[c as int] == mid.pool.cdrs@[c as int]);
                }
                assert forall|c: Cell| old(self).in_pool(c)
                    implies (self.pool.is_free(c) <==> !(exists|k: nat|
                        #[trigger] reach(*old(self), c, k))) by {
                    if bit_on(mid.pool.tags@[c as int], MARK_TAG) {
                        assert(exists|k: nat| #[trigger] reach(*old(self), c, k));
                        assert(!self.pool.is_free(c));
                    } else {
                        assert(self.pool.is_free(c));
                        if exists|k: nat| #[trigger] reach(*old(self), c, k) {
                            let k = choose|k: nat| #[trigger] reach(*old(self), c, k);
                            assert(bit_on(mid.pool.tags@[c as int], MARK_TAG));
                        }
                    }
                }
            }
        }
        proof {
            assert forall|c: Cell| old(self).is_root(c) && old(self).in_pool(c)
                implies !self.pool.is_free(c)
                    && self.car_s(c) == old(self).car_s(c)
                    && self.cdr_s(c) == old(self).cdr_s(c)
                    && self.tag_s(c) == (old(self).tag_s(c) & !MARK_TAG) by {
                lemma_mark_ops(old(self).pool.tags@[c as int]);
                assert(bit_on(mid.pool.tags@[c as int], MARK_TAG));
                assert(mid.pool.cars@ == old(self).pool.cars@);
                assert(mid.pool.cdrs@ == old(self).pool.cdrs@);
                assert(self.pool.tags@[c as int] == (mid.pool.tags@[c as int] & !MARK_TAG));
                assert(self.pool.cars@[c as int] == mid.pool.cars@[c as int]);
                assert(self.pool.cdrs@[c as int] == mid.pool.cdrs@[c as int]);
            }
        }
    }

    /// The collection cycle run under vector-pool pressure.  Beyond what
    /// an ordinary cycle promises, it keeps the vector pool's size, never
    /// raises the bump pointer, and leaves the `cdr` of every rooted cell
    /// alone at least when that cell is no vector header (a vector's
    /// backing region may be slid down, its owner's link rewritten).
    pub fn gcv(&mut self)
        requires
            old(self).wf(),
        ensures
            final(self).wf(),
            Machine::regs_same(*old(self), *final(self)),
            final(self).pool.cap() == old(self).pool.cap(),
            final(self).vpool.cells@.len() == old(self).vpool.cells@.len(),
            final(self).vpool.freetop <= old(self).vpool.freetop,
            forall|c: Cell|
                #[trigger] old(self).is_root(c) && old(self).in_pool(c)
                    ==> !final(self).pool.is_free(c)
                        && final(self).car_s(c) == old(self).car_s(c)
                        && (final(self).tag_s(c) == old(self).tag_s(c)
                            || final(self).tag_s(c) == (old(self).tag_s(c) & !MARK_TAG))
                        && ((old(self).cdr_s(c) < 0 || !bit_on(old(self).tag_s(c),
                            VECTOR_TAG)) ==> final(self).cdr_s(c) == old(self).cdr_s(c)),
            heap_unmarked(*final(self)),
    {
        self.mark();
        let ghost mid = *self;
        if self.check_chain() {
            self.compact();
        }
        let ghost mid2 = *self;
        self.sweep();
        proof {
            assert(mid2.pool.cars@ == mid.pool.cars@);
            assert(mid2.pool.tags@ == mid.pool.tags@);
            assert forall|c: Cell| old(self).is_root(c) && old(self).in_pool(c)
                implies !self.pool.is_free(c)
                    && self.car_s(c) == old(self).car_s(c)
                    && (self.tag_s(c) == old(self).tag_s(c)
                        || self.tag_s(c) == (old(self).tag_s(c) & !MARK_TAG))
                    && ((old(self).cdr_s(c) < 0 || !bit_on(old(self).tag_s(c), VECTOR_TAG))
                        ==> self.cdr_s(c) == old(self).cdr_s(c)) by {
                lemma_mark_ops(old(self).pool.tags@[c as int]);
                assert(bit_on(mid.pool.tags@[c as int], MARK_TAG));
                assert(bit_on(mid2.pool.tags@[c as int], MARK_TAG));
                if old(self).cdr_s(c) < 0 || !bit_on(old(self).tag_s(c), VECTOR_TAG) {
                    assert(mid.cdr_s(c) == old(self).cdr_s(c));
                    assert(!mid.live_vec(c));
                    assert(mid2.cdr_s(c) == mid.cdr_s(c));
                }
                assert(self.pool.tags@[c as int] == (mid2.pool.tags@[c as int] & !MARK_TAG));
                assert(self.pool.cars@[c as int] == mid2.pool.cars@[c as int]);
                assert(self.pool.cdrs@[c as int] == mid2.pool.cdrs@[c as int]);
            }
        }
    }
}

} // verus!
