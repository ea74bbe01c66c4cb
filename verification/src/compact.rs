//! The compaction phase of the collector: live vector regions are slid
//! toward the low end of the vector pool in address order, each owning
//! atom's link is rewritten to its region's new offset, and the bump
//! pointer drops to the end of the last survivor.  This reclaims the
//! fragmentation that the node sweep alone cannot, because vector bodies
//! need contiguous storage.  Regions whose owning atom the mark phase
//! did not reach are simply dropped.

use vstd::prelude::*;
use crate::cell::Cell;
use crate::cell::bit_on;
use crate::cell::MARK_TAG;
use crate::cell::VECTOR_TAG;
use crate::machine::Machine;
use crate::vecpool::VEC_HEADER;

verus! {

/// The allocated prefix `[b, ft)` of the vector pool is a chain of
/// regions laid back to back: each base carries a two-cell header whose
/// length field leads exactly to the next base.
pub open spec fn region_chain_ok(cells: Seq<Cell>, b: int, ft: int) -> bool
    decreases ft - b,
{
    if b >= ft {
        b == ft
    } else if ft - b < 2 {
        false
    } else {
        let k = cells[b + 1] as int;
        &&& k >= 0
        &&& b + 2 + k <= ft
        &&& region_chain_ok(cells, b + 2 + k, ft)
    }
}

/// `x` is one of the chain's region bases at or after `b`.
pub open spec fn chain_base(cells: Seq<Cell>, b: int, ft: int, x: int) -> bool
    decreases ft - b,
{
    if b >= ft || ft - b < 2 {
        false
    } else if b == x {
        true
    } else {
        let k = cells[b + 1] as int;
        &&& k >= 0
        &&& b + 2 + k <= ft
        &&& chain_base(cells, b + 2 + k, ft, x)
    }
}

/// What a well-formed chain says of each of its bases: the header is in
/// bounds, and the position after the region is the next base or the
/// end of the chain.
pub proof fn lemma_chain_base_props(cells: Seq<Cell>, b: int, ft: int, x: int)
    requires
        region_chain_ok(cells, b, ft),
        chain_base(cells, b, ft, x),
    ensures
        b <= x,
        x < ft,
        ft - x >= 2,
        cells[x + 1] >= 0,
        x + 2 + cells[x + 1] <= ft,
        region_chain_ok(cells, x, ft),
        (x + 2 + cells[x + 1] < ft) ==> chain_base(cells, b, ft, x + 2 + cells[x + 1]),
    decreases ft - b,
{
    reveal_with_fuel(region_chain_ok, 2);
    reveal_with_fuel(chain_base, 2);
    if b == x {
        let nxt = b + 2 + cells[b + 1];
        assert(region_chain_ok(cells, nxt, ft));
        if nxt < ft {
            assert(ft - nxt >= 2);
            assert(chain_base(cells, nxt, ft, nxt));
            assert(chain_base(cells, b, ft, nxt));
        }
    } else {
        let k = cells[b + 1] as int;
        lemma_chain_base_props(cells, b + 2 + k, ft, x);
        let nxt = x + 2 + cells[x + 1];
        if nxt < ft {
            assert(chain_base(cells, b + 2 + k, ft, nxt));
        }
    }
}

/// A base reached from `b` that lies at or past another base `s` is
/// reached from `s` as well: the chain has no side entrances.
pub proof fn lemma_chain_base_suffix(cells: Seq<Cell>, b: int, ft: int, s: int, x: int)
    requires
        region_chain_ok(cells, b, ft),
        chain_base(cells, b, ft, s),
        chain_base(cells, b, ft, x),
        s <= x,
    ensures
        chain_base(cells, s, ft, x),
    decreases ft - b,
{
    if b == s {
    } else {
        let k = cells[b + 1] as int;
        if b == x {
            lemma_chain_base_props(cells, b, ft, s);
            assert(false);
        } else {
            lemma_chain_base_suffix(cells, b + 2 + k, ft, s, x);
        }
    }
}

impl Machine {
    /// `n` is a marked vector-class atom whose link and backing region
    /// agree: the link names a region base of the chain and the region's
    /// owner cell points back at `n`.  These are the regions compaction
    /// keeps.
    pub open spec fn live_vec(self, n: Cell) -> bool {
        &&& self.in_pool(n)
        &&& bit_on(self.tag_s(n), VECTOR_TAG)
        &&& bit_on(self.tag_s(n), MARK_TAG)
        &&& VEC_HEADER <= self.cdr_s(n)
        &&& chain_base(self.vpool.cells@, 0, self.vpool.freetop as int, self.cdr_s(n) - 2)
        &&& self.vpool.cells@[self.cdr_s(n) - 2] == n
    }

    /// Check that the vector pool's allocated prefix is a well-formed
    /// region chain; compaction refuses to run on anything else.
    pub fn check_chain(&self) -> (r: bool)
        requires
            self.wf(),
        ensures
            r == region_chain_ok(self.vpool.cells@, 0, self.vpool.freetop as int),
    {
        let ft = self.vpool.freetop;
        let mut b: usize = 0;
        while b < ft
            invariant
                self.wf(),
                b <= ft,
                ft == self.vpool.freetop,
                region_chain_ok(self.vpool.cells@, 0, ft as int) == region_chain_ok(
                    self.vpool.cells@,
                    b as int,
                    ft as int,
                ),
            decreases ft - b,
        {
            if ft - b < 2 {
                return false;
            }
            let k = self.vpool.get_cell(b + 1);
            if k < 0 {
                return false;
            }
            let ku = k as usize;
            if ku > ft - b - 2 {
                return false;
            }
            b = b + 2 + ku;
        }
        true
    }

    /// Compact phase, run between mark and sweep on a well-formed region
    /// chain.  Every live vector's owning atom ends up linked to a
    /// region holding exactly the original content behind the original
    /// headers, no two live regions overlap, every other node keeps its
    /// link, and the bump pointer falls to the end of the packed
    /// survivors.
    #[verifier::rlimit(100)]
    #[verifier::loop_isolation(false)]
    pub fn compact(&mut self)
        requires
            old(self).wf(),
            region_chain_ok(old(self).vpool.cells@, 0, old(self).vpool.freetop as int),
        ensures
            final(self).wf(),
            Machine::regs_same(*old(self), *final(self)),
            final(self).pool.cap() == old(self).pool.cap(),
            final(self).pool.cars@ == old(self).pool.cars@,
            final(self).pool.tags@ == old(self).pool.tags@,
            final(self).pool.free@ == old(self).pool.free@,
            final(self).vpool.cells@.len() == old(self).vpool.cells@.len(),
            final(self).vpool.freetop <= old(self).vpool.freetop,
            forall|n: Cell|
                0 <= n < old(self).pool.cap() && !old(self).live_vec(n)
                    ==> final(self).cdr_s(n) == old(self).cdr_s(n),
            forall|n: Cell|
                #[trigger] old(self).live_vec(n) ==> ({
                    let o = old(self).cdr_s(n) as int;
                    let k = old(self).vpool.cells@[o - 1] as int;
                    let o2 = final(self).cdr_s(n) as int;
                    &&& VEC_HEADER <= o2
                    &&& o2 + k <= final(self).vpool.freetop
                    &&& final(self).vpool.cells@[o2 - 2] == n
                    &&& final(self).vpool.cells@[o2 - 1] == k
                    &&& final(self).vpool.cells@.subrange(o2, o2 + k)
                        == old(self).vpool.cells@.subrange(o, o + k)
                }),
            forall|n1: Cell, n2: Cell|
                #[trigger] old(self).live_vec(n1) && #[trigger] old(self).live_vec(n2) && n1
                    != n2 ==> final(self).cdr_s(n1) + old(self).vpool.cells@[old(self).cdr_s(
                    n1,
                ) - 1] <= final(self).cdr_s(n2) - 2 || final(self).cdr_s(n2)
                    + old(self).vpool.cells@[old(self).cdr_s(n2) - 1] <= final(self).cdr_s(n1)
                    - 2,
            forall|n1: Cell, n2: Cell|
                #[trigger] old(self).live_vec(n1) && #[trigger] old(self).live_vec(n2)
                    && old(self).cdr_s(n1) < old(self).cdr_s(n2) ==> final(self).cdr_s(n1)
                    + old(self).vpool.cells@[old(self).cdr_s(n1) - 1] <= final(self).cdr_s(
                    n2,
                ) - 2,
    {
        let ghost orig = old(self).vpool.cells@;
        let ft = self.vpool.freetop;
        let mut src: usize = 0;
        let mut dst: usize = 0;
        while src < ft
            invariant
                self.wf(),
                dst <= src,
                src <= ft,
                ft == self.vpool.freetop,
                self.vpool.cells@.len() == orig.len(),
                self.pool.cars@ == old(self).pool.cars@,
                self.pool.tags@ == old(self).pool.tags@,
                self.pool.free@ == old(self).pool.free@,
                self.pool.cap() == old(self).pool.cap(),
                Machine::regs_same(*old(self), *self),
                src == ft || chain_base(orig, 0, ft as int, src as int),
                region_chain_ok(orig, src as int, ft as int),
                forall|j: int| src <= j < orig.len() ==> self.vpool.cells@[j] == orig[j],
                forall|n: Cell|
                    0 <= n < self.pool.cap() ==> #[trigger] self.cdr_s(n) == old(self).cdr_s(
                        n,
                    ) || (old(self).live_vec(n) && old(self).cdr_s(n) - 2 < src),
                forall|n: Cell|
                    #[trigger] old(self).live_vec(n) && old(self).cdr_s(n) - 2 < src ==> ({
                        let o = old(self).cdr_s(n) as int;
                        let k = orig[o - 1] as int;
                        let o2 = self.cdr_s(n) as int;
                        &&& VEC_HEADER <= o2
                        &&& o2 + k <= dst
                        &&& self.vpool.cells@[o2 - 2] == n
                        &&& self.vpool.cells@[o2 - 1] == k
                        &&& self.vpool.cells@.subrange(o2, o2 + k) == orig.subrange(o, o + k)
                    }),
                forall|n1: Cell, n2: Cell|
                    #[trigger] old(self).live_vec(n1) && #[trigger] old(self).live_vec(n2)
                        && n1 != n2 && old(self).cdr_s(n1) - 2 < src && old(self).cdr_s(n2) - 2
                        < src ==> self.cdr_s(n1) + orig[old(self).cdr_s(n1) - 1]
                        <= self.cdr_s(n2) - 2 || self.cdr_s(n2) + orig[old(self).cdr_s(n2) - 1]
                        <= self.cdr_s(n1) - 2,
                forall|n1: Cell, n2: Cell|
                    #[trigger] old(self).live_vec(n1) && #[trigger] old(self).live_vec(n2)
                        && old(self).cdr_s(n1) < old(self).cdr_s(n2)
                        && old(self).cdr_s(n1) - 2 < src && old(self).cdr_s(n2) - 2 < src
                        ==> self.cdr_s(n1) + orig[old(self).cdr_s(n1) - 1]
                            <= self.cdr_s(n2) - 2,
            decreases ft - src,
        {
            let ghost src0 = src as int;
            let ghost dst0 = dst as int;
            proof {
                lemma_chain_base_props(orig, 0, ft as int, src as int);
            }
            let k = self.vpool.get_cell(src + 1);
            let ku = k as usize;
            let size = 2 + ku;
            let w = self.vpool.get_cell(src);
            let live = w >= 0 && (w as usize) < self.pool.cars.len() && {
                let t = self.pool.get_tag(w);
                (t & VECTOR_TAG) != 0 && (t & MARK_TAG) != 0 && self.pool.get_cdr(w) == (src
                    + 2) as i32
            };
            proof {
                // No chain base hides strictly inside this region:
                // extending the processed range to its end only adds the
                // base at `src` itself.
                assert forall|x: int|
                    chain_base(orig, 0, ft as int, x) && src0 <= x < src0 + size
                    implies x == src0 by {
                    lemma_chain_base_suffix(orig, 0, ft as int, src0, x);
                    if x != src0 {
                        let nxt = src0 + 2 + orig[src0 + 1];
                        assert(chain_base(orig, nxt, ft as int, x));
                        lemma_chain_base_props(orig, nxt, ft as int, x);
                    }
                }
                if live {
                    assert(self.cdr_s(w) == old(self).cdr_s(w)) by {
                        if self.cdr_s(w) != old(self).cdr_s(w) {
                            assert(old(self).live_vec(w) && old(self).cdr_s(w) - 2 < src0);
                            assert(orig[old(self).cdr_s(w) - 1] >= 0) by {
                                lemma_chain_base_props(orig, 0, ft as int,
                                    old(self).cdr_s(w) - 2);
                            }
                            assert(self.cdr_s(w) <= dst0);
                        }
                    }
                    assert(old(self).live_vec(w));
                    assert(old(self).cdr_s(w) == src0 + 2);
                } else {
                    // No live owner claims this region: were one to
                    // exist, the check just made would have passed.
                    assert forall|n: Cell|
                        old(self).live_vec(n) && old(self).cdr_s(n) - 2 == src0
                        implies false by {
                        assert(orig[src0] == n);
                        assert(w == n);
                        assert(self.cdr_s(n) == old(self).cdr_s(n));
                    }
                }
            }
            let ghost mid = *self;
            if live {
                // Slide the whole region, headers included, down to dst.
                let mut t: usize = 0;
                while t < size
                    invariant
                        t <= size,
                        self.wf(),
                        Machine::regs_same(*old(self), *self),
                        forall|j: int|
                            dst0 <= j < dst0 + t ==> #[trigger] self.vpool.cells@[j]
                                == orig[src0 + (j - dst0)],
                        forall|j: int|
                            src0 + t <= j < orig.len() ==> #[trigger] self.vpool.cells@[j]
                                == orig[j],
                        forall|j: int|
                            0 <= j < dst0 ==> #[trigger] self.vpool.cells@[j]
                                == mid.vpool.cells@[j],
                        self.vpool.cells@.len() == orig.len(),
                        self.vpool.freetop == ft,
                        self.pool == mid.pool,
                    decreases size - t,
                {
                    let v = self.vpool.get_cell(src + t);
                    self.vpool.set_cell(dst + t, v);
                    t = t + 1;
                }
                self.pool.set_cdr(w, (dst + 2) as i32);
                dst = dst + size;
            }
            src = src + size;
            proof {
                // The suffix from the new scan position is untouched.
                assert forall|j: int| src <= j < orig.len()
                    implies self.vpool.cells@[j] == orig[j] by {}
                // Links: only the owner just slid was rewritten.
                assert forall|n: Cell| 0 <= n < self.pool.cap()
                    implies self.cdr_s(n) == old(self).cdr_s(n) || (old(self).live_vec(n)
                        && old(self).cdr_s(n) - 2 < src) by {
                    if live && n == w {
                    } else {
                        assert(self.cdr_s(n) == mid.cdr_s(n));
                    }
                }
                // Every processed live owner's region is in place.
                assert forall|n: Cell|
                    #[trigger] old(self).live_vec(n) && old(self).cdr_s(n) - 2 < src
                    implies ({
                        let o = old(self).cdr_s(n) as int;
                        let kk = orig[o - 1] as int;
                        let o2 = self.cdr_s(n) as int;
                        &&& VEC_HEADER <= o2
                        &&& o2 + kk <= dst
                        &&& self.vpool.cells@[o2 - 2] == n
                        &&& self.vpool.cells@[o2 - 1] == kk
                        &&& self.vpool.cells@.subrange(o2, o2 + kk) == orig.subrange(o, o
                            + kk)
                    }) by {
                    let o = old(self).cdr_s(n) as int;
                    let kk = orig[o - 1] as int;
                    if o - 2 < src0 {
                        // Processed in an earlier round: below the old
                        // dst, where nothing was written since.
                        let o2 = mid.cdr_s(n) as int;
                        assert(o2 + kk <= dst0);
                        assert(orig[o - 1] >= 0) by {
                            lemma_chain_base_props(orig, 0, ft as int, o - 2);
                        }
                        assert(n != w || !live);
                        assert(self.cdr_s(n) == o2);
                        assert(mid.vpool.cells@.subrange(o2, o2 + kk) == orig.subrange(o, o
                            + kk));
                        if live {
                            assert(self.vpool.cells@[o2 - 2] == mid.vpool.cells@[o2 - 2]);
                            assert(self.vpool.cells@[o2 - 1] == mid.vpool.cells@[o2 - 1]);
                            assert(self.vpool.cells@.subrange(o2, o2 + kk)
                                =~= mid.vpool.cells@.subrange(o2, o2 + kk)) by {
                                assert forall|u: int|
                                    0 <= u < kk
                                    implies #[trigger] self.vpool.cells@.subrange(o2, o2
                                        + kk)[u] == mid.vpool.cells@.subrange(o2, o2 + kk)[u]
                                    by {
                                    assert(self.vpool.cells@[o2 + u]
                                        == mid.vpool.cells@[o2 + u]);
                                }
                            }
                        }
                    } else {
                        // Processed this round: it is the region at the
                        // old scan position, owned by w.
                        assert(o - 2 == src0);
                        assert(orig[src0] == n);
                        assert(w == n);
                        assert(live);
                        assert(self.cdr_s(n) == dst0 + 2);
                        assert(self.vpool.cells@[dst0] == orig[src0]);
                        assert(self.vpool.cells@[dst0 + 1] == orig[src0 + 1]);
                        assert(kk == orig[src0 + 1]);
                        assert(self.vpool.cells@.subrange(dst0 + 2, dst0 + 2 + kk)
                            =~= orig.subrange(o, o + kk)) by {
                            assert forall|u: int|
                                0 <= u < kk
                                implies #[trigger] self.vpool.cells@.subrange(dst0 + 2, dst0
                                    + 2 + kk)[u] == orig.subrange(o, o + kk)[u] by {
                                assert(self.vpool.cells@[dst0 + 2 + u] == orig[src0 + 2 + u]);
                            }
                        }
                    }
                }
                // Packed regions stay pairwise disjoint: everything
                // processed earlier ends at or below the old dst, and
                // the newcomer starts right there.
                assert forall|n1: Cell, n2: Cell|
                    #[trigger] old(self).live_vec(n1) && #[trigger] old(self).live_vec(n2)
                        && old(self).cdr_s(n1) < old(self).cdr_s(n2)
                        && old(self).cdr_s(n1) - 2 < src && old(self).cdr_s(n2) - 2 < src
                    implies self.cdr_s(n1) + orig[old(self).cdr_s(n1) - 1]
                        <= self.cdr_s(n2) - 2 by {
                    let o1 = old(self).cdr_s(n1) as int;
                    let o2 = old(self).cdr_s(n2) as int;
                    if o2 - 2 == src0 {
                        assert(orig[src0] == n2 && w == n2 && live);
                        assert(o1 - 2 < src0);
                        assert(mid.cdr_s(n1) + orig[o1 - 1] <= dst0);
                        assert(self.cdr_s(n1) == mid.cdr_s(n1));
                        assert(self.cdr_s(n2) == dst0 + 2);
                    } else if o1 - 2 == src0 {
                        assert(o2 - 2 > src0 && o2 - 2 < src0 + size);
                        assert(false);
                    } else {
                        assert(self.cdr_s(n1) == mid.cdr_s(n1));
                        assert(self.cdr_s(n2) == mid.cdr_s(n2));
                    }
                }
                assert forall|n1: Cell, n2: Cell|
                    #[trigger] old(self).live_vec(n1) && #[trigger] old(self).live_vec(n2)
                        && n1 != n2 && old(self).cdr_s(n1) - 2 < src && old(self).cdr_s(n2) - 2
                        < src
                    implies self.cdr_s(n1) + orig[old(self).cdr_s(n1) - 1] <= self.cdr_s(n2)
                        - 2 || self.cdr_s(n2) + orig[old(self).cdr_s(n2) - 1]
                        <= self.cdr_s(n1) - 2 by {
                    let o1 = old(self).cdr_s(n1) as int;
                    let o2 = old(self).cdr_s(n2) as int;
                    if o1 - 2 == src0 {
                        assert(orig[src0] == n1 && w == n1 && live);
                        assert(o2 - 2 < src0);
                        assert(mid.cdr_s(n2) + orig[o2 - 1] <= dst0);
                        assert(self.cdr_s(n2) == mid.cdr_s(n2));
                        assert(self.cdr_s(n1) == dst0 + 2);
                    } else if o2 - 2 == src0 {
                        assert(orig[src0] == n2 && w == n2 && live);
                        assert(o1 - 2 < src0);
                        assert(mid.cdr_s(n1) + orig[o1 - 1] <= dst0);
                        assert(self.cdr_s(n1) == mid.cdr_s(n1));
                        assert(self.cdr_s(n2) == dst0 + 2);
                    } else {
                        assert(self.cdr_s(n1) == mid.cdr_s(n1));
                        assert(self.cdr_s(n2) == mid.cdr_s(n2));
                    }
                }
                if (src as int) < ft {
                    assert(chain_base(orig, 0, ft as int, src as int));
                }
            }
        }
        let ghost pre = *self;
        proof {
            assert forall|n: Cell|
                0 <= n < old(self).pool.cap() && !old(self).live_vec(n)
                implies pre.cdr_s(n) == old(self).cdr_s(n) by {
                assert(pre.cdr_s(n) == old(self).cdr_s(n) || (old(self).live_vec(n)
                    && old(self).cdr_s(n) - 2 < src));
            }
        }
        self.vpool.freetop = dst;
        proof {
            assert(self.pool == pre.pool);
            assert forall|n: Cell|
                0 <= n < old(self).pool.cap() && !old(self).live_vec(n)
                implies self.cdr_s(n) == old(self).cdr_s(n) by {
                assert(self.cdr_s(n) == pre.cdr_s(n));
            }
            assert forall|n: Cell| #[trigger] old(self).live_vec(n) implies old(self).cdr_s(n)
                - 2 < src by {
                lemma_chain_base_props(orig, 0, ft as int, old(self).cdr_s(n) - 2);
            }
            assert forall|n: Cell| #[trigger] old(self).live_vec(n) implies ({
                let o = old(self).cdr_s(n) as int;
                let k = old(self).vpool.cells@[o - 1] as int;
                let o2 = final(self).cdr_s(n) as int;
                &&& VEC_HEADER <= o2
                &&& o2 + k <= final(self).vpool.freetop
                &&& final(self).vpool.cells@[o2 - 2] == n
                &&& final(self).vpool.cells@[o2 - 1] == k
                &&& final(self).vpool.cells@.subrange(o2, o2 + k) == old(self).vpool.cells@
                    .subrange(o, o + k)
            }) by {
                assert(old(self).cdr_s(n) - 2 < src);
            }
        }
    }
}

} // verus!
