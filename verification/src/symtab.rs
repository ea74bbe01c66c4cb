//! The symbol table and the association-list machinery: `assq` lookup
//! over pair chains, global bindings set through `bindset`, and interning
//! of symbol names.  Interning searches the table first, so two equal
//! names share one symbol cell.

use vstd::prelude::*;
use crate::cell::Cell;
use crate::cell::bit_on;
use crate::cell::lemma_mark_ops;
use crate::cell::NIL;
use crate::cell::VECTOR_TAG;
use crate::cell::T_SYMBOL;
use crate::machine::Machine;
use crate::machine::Fault;
use crate::machine::Status;
use crate::vecpool::VEC_HEADER;

verus! {

impl Machine {
    /// What `assq` finds in at most `fuel` steps down the chain `l`: the
    /// first element of `l` that is a pair whose `car` is exactly `x`, or
    /// `NIL` when the chain ends, leaves pair territory or runs out of
    /// fuel first.
    pub open spec fn assq_s(self, x: Cell, l: Cell, fuel: nat) -> Cell
        decreases fuel,
    {
        if fuel == 0 {
            NIL
        } else if !self.pairp_s(l) {
            NIL
        } else if self.pairp_s(self.car_s(l)) && self.car_s(self.car_s(l)) == x {
            self.car_s(l)
        } else {
            self.assq_s(x, self.cdr_s(l), (fuel - 1) as nat)
        }
    }

    /// The fuel with which every acyclic chain in the pool is walked to
    /// its end: one step more than there are slots.
    pub open spec fn walk_fuel(self) -> nat {
        (self.pool.cap() + 1) as nat
    }

    /// Search the association chain `y` for the entry whose `car` is
    /// identical to `x`.
    pub fn assq(&self, x: Cell, y: Cell) -> (r: Cell)
        requires
            self.wf(),
        ensures
            r == self.assq_s(x, y, self.walk_fuel()),
    {
        let mut l = y;
        let mut fuel: usize = self.pool.cars.len() + 1;
        while fuel > 0
            invariant
                self.wf(),
                fuel <= self.pool.cap() + 1,
                self.assq_s(x, y, self.walk_fuel()) == self.assq_s(x, l, fuel as nat),
            decreases fuel,
        {
            if !self.pairp(l) {
                return NIL;
            }
            let e = self.car_of(l);
            if self.pairp(e) && self.car_of(e) == x {
                return e;
            }
            l = self.cdr_of(l);
            fuel = fuel - 1;
        }
        NIL
    }

    /// The value box of the binding that `bindset` would write: the `cdr`
    /// of the entry `assq` finds for `x` on the global list, provided it
    /// is a mutable pair.
    pub open spec fn binding_box(self, x: Cell) -> Cell {
        let e = self.assq_s(x, self.glob, self.walk_fuel());
        if self.pairp_s(e) && self.pairp_s(self.cdr_s(e)) && !self.constp_s(self.cdr_s(e)) {
            self.cdr_s(e)
        } else {
            NIL
        }
    }

    /// Rebind the global binding of `x` to the value `v`: the entry's
    /// value box gets `v` as its `car`.  Returns `x` when a mutable
    /// binding was found, `NIL` (with the machine untouched) otherwise.
    pub fn bindset(&mut self, x: Cell, v: Cell) -> (r: Cell)
        requires
            old(self).wf(),
        ensures
            final(self).wf(),
            ({
                let b = old(self).binding_box(x);
                if b != NIL && old(self).pairp_s(b) {
                    &&& r == x
                    &&& final(self).pool.cars@ == old(self).pool.cars@.update(b as int, v)
                    &&& final(self).pool.cdrs@ == old(self).pool.cdrs@
                    &&& final(self).pool.tags@ == old(self).pool.tags@
                    &&& final(self).pool.free@ == old(self).pool.free@
                    &&& final(self).vpool == old(self).vpool
                    &&& Machine::vm_regs_same(*old(self), *final(self))
                    &&& Machine::tables_same(*old(self), *final(self))
                    &&& final(self).ports@ == old(self).ports@
                    &&& final(self).port_atoms@ == old(self).port_atoms@
                    &&& final(self).status == old(self).status
                    &&& final(self).erritem == old(self).erritem
                    &&& final(self).trace == old(self).trace
                    &&& final(self).inport == old(self).inport
                    &&& final(self).outport == old(self).outport
                    &&& final(self).errport == old(self).errport
                } else {
                    &&& r == NIL
                    &&& *final(self) == *old(self)
                }
            }),
    {
        let g = self.glob;
        let e = self.assq(x, g);
        if self.pairp(e) {
            let b = self.cdr_of(e);
            if self.pairp(b) && !self.constp(b) {
                self.pool.set_car(b, v);
                return x;
            }
        }
        NIL
    }

    /// The vector-class atom `s` has exactly the cells `nm` as its
    /// backing payload.
    pub open spec fn name_is(self, s: Cell, nm: Seq<Cell>) -> bool {
        &&& self.in_pool(s)
        &&& bit_on(self.tag_s(s), VECTOR_TAG)
        &&& VEC_HEADER <= self.cdr_s(s)
        &&& self.cdr_s(s) + nm.len() <= self.vpool.cells@.len()
        &&& self.strlen_s(s) == nm.len()
        &&& self.vpool.cells@.subrange(self.cdr_s(s) as int, self.cdr_s(s) + nm.len())
            == nm
    }

    /// Compare the payload of the vector-class atom `s` with `name`.
    pub fn name_eq(&self, s: Cell, name: &Vec<Cell>) -> (r: bool)
        requires
            self.wf(),
            name@.len() <= 0x3ffffffd,
        ensures
            r == self.name_is(s, name@),
    {
        let n = name.len();
        let sl = self.strlen(s);
        if sl < 0 || (sl as usize) != n {
            return false;
        }
        if n > self.vpool.cells.len() {
            return false;
        }
        let o = self.pool.get_cdr(s);
        if (o as usize) > self.vpool.cells.len() - n {
            return false;
        }
        let ou = o as usize;
        let mut i: usize = 0;
        while i < n
            invariant
                self.wf(),
                i <= n,
                n == name@.len(),
                ou == self.cdr_s(s),
                ou + n <= self.vpool.cells@.len(),
                forall|j: int| 0 <= j < i ==> self.vpool.cells@[ou + j] == name@[j],
            decreases n - i,
        {
            if self.vpool.get_cell(ou + i) != name[i] {
                proof {
                    assert(self.vpool.cells@.subrange(ou as int, ou + n as int)[i as int]
                        != name@[i as int]);
                }
                return false;
            }
            i = i + 1;
        }
        proof {
            assert(self.vpool.cells@.subrange(ou as int, ou + n as int) =~= name@);
        }
        true
    }

    /// What the table search finds in at most `fuel` steps down the
    /// chain `l`: the first symbol whose print name is exactly `nm`, or
    /// `NIL` when the chain ends first.
    pub open spec fn find_sym(self, l: Cell, nm: Seq<Cell>, fuel: nat) -> Cell
        decreases fuel,
    {
        if fuel == 0 {
            NIL
        } else if !self.pairp_s(l) {
            NIL
        } else if self.vec_typep_s(self.car_s(l), T_SYMBOL) && self.name_is(
            self.car_s(l),
            nm,
        ) {
            self.car_s(l)
        } else {
            self.find_sym(self.cdr_s(l), nm, (fuel - 1) as nat)
        }
    }

    /// Intern a symbol name: walk the symbol table for an existing symbol
    /// with the same print name and return it, else build a fresh
    /// `T_SYMBOL` atom holding the name and push it onto the table.
    /// Symbols are never duplicated: when a symbol with this name is
    /// already on the table, that very cell comes back and the machine
    /// is untouched.
    pub fn intern(&mut self, name: &Vec<Cell>) -> (r: Result<Cell, Fault>)
        requires
            old(self).wf(),
            name@.len() <= 0x3ffffffd,
        ensures
            final(self).wf(),
            final(self).pool.cap() == old(self).pool.cap(),
            final(self).vpool.cells@.len() == old(self).vpool.cells@.len(),
            Machine::vm_regs_same(*old(self), *final(self)),
            final(self).glob == old(self).glob,
            final(self).handlers == old(self).handlers,
            final(self).pinned@ == old(self).pinned@,
            final(self).s_errval == old(self).s_errval,
            final(self).trace == old(self).trace,
            final(self).port_atoms@ == old(self).port_atoms@,
            final(self).inport == old(self).inport,
            final(self).outport == old(self).outport,
            final(self).errport == old(self).errport,
            match r {
                Ok(s) => {
                    &&& final(self).symbolp_s(s)
                    &&& final(self).name_is(s, name@)
                    &&& final(self).status == old(self).status
                    &&& final(self).ports@ == old(self).ports@
                },
                Err(f) => {
                    &&& (f == Fault::OutOfNodes || f == Fault::OutOfVecCells)
                    &&& final(self).status == Status::Fatal
                },
            },
            (old(self).pool.free@.len() > 1 && name@.len() + VEC_HEADER
                <= old(self).vpool.cells@.len() - old(self).vpool.freetop) ==> r is Ok
                && final(self).pool.free@.len() >= old(self).pool.free@.len() - 2
                && final(self).vpool.freetop <= old(self).vpool.freetop + name@.len()
                    + VEC_HEADER,
            crate::gc::heap_unmarked(*old(self)) ==> crate::gc::heap_unmarked(*final(self)),
            ({
                let f = old(self).find_sym(old(self).symbols, name@, old(self).walk_fuel());
                f != NIL ==> r is Ok && r->Ok_0 == f && *final(self) == *old(self)
            }),
    {
        // Search the table first: symbols are never duplicated.
        let mut l = self.symbols;
        let mut fuel: usize = self.pool.cars.len() + 1;
        let mut ended = false;
        while fuel > 0 && !ended
            invariant
                self.wf(),
                *self == *old(self),
                name@.len() <= 0x3ffffffd,
                old(self).find_sym(old(self).symbols, name@, old(self).walk_fuel())
                    == old(self).find_sym(l, name@, fuel as nat),
                ended ==> !self.pairp_s(l),
            decreases fuel, (if ended { 0int } else { 1int }),
        {
            if !self.pairp(l) {
                ended = true;
            } else {
                let sym = self.car_of(l);
                if self.vec_typep(sym, T_SYMBOL) && self.name_eq(sym, name) {
                    return Ok(sym);
                }
                l = self.cdr_of(l);
                fuel = fuel - 1;
            }
        }
        proof {
            assert(old(self).find_sym(old(self).symbols, name@, old(self).walk_fuel())
                == NIL);
        }
        // Not found: build the symbol and put it on the table.
        let s = match self.vec_filled(T_SYMBOL, name) {
            Ok(s) => s,
            Err(f) => {
                return Err(f);
            },
        };
        let ghost m1 = *self;
        self.pinned.push(s);
        proof {
            crate::gc::lemma_contains_after_push(m1.pinned@, s);
            assert(self.pinned@ == m1.pinned@.push(s));
            assert(m1.pinned@.push(s).contains(s));
            assert(self.is_root(s));
        }
        let ghost m2 = *self;
        let sy = self.symbols;
        proof {
            crate::cell::lemma_tag_constants();
        }
        let c = match self.cons3(s, sy, 0) {
            Ok(c) => c,
            Err(f) => {
                self.pinned.pop();
                proof {
                    assert(self.pinned@ =~= old(self).pinned@);
                }
                return Err(f);
            },
        };
        self.symbols = c;
        self.pinned.pop();
        proof {
            assert(self.pinned@ =~= old(self).pinned@);
            assert(m2.is_root(s) && m2.in_pool(s) && !m2.pool.is_free(s));
            assert(Machine::root_survives(m2, *self, s));
            lemma_mark_ops(m2.tag_s(s));
            assert(bit_on(self.tag_s(s), VECTOR_TAG));
            assert(self.car_s(s) == T_SYMBOL);
            assert(self.name_is(s, name@));
        }
        Ok(s)
    }
}

} // verus!
