//! The error and trace subsystem: diagnostics formatted to the error
//! port, the fatal-condition path, the non-local control transfer shared
//! by `catch`/`throw` and error escalation, and the handler dispatch that
//! maps error-tag symbols to installed handler closures.

use vstd::prelude::*;
use crate::cell::Cell;
use crate::cell::NIL;
use crate::cell::UNDEF;
use crate::cell::lemma_tag_constants;
use crate::cell::lemma_mark_ops;
use crate::cell::MARK_TAG;
use crate::machine::Machine;
use crate::machine::CatchFrame;
use crate::machine::Fault;
use crate::machine::Status;

verus! {

/// The position of the topmost catch frame whose tag is identical to
/// `tag`, or `-1` when none matches: what `throw` searches for.
pub open spec fn find_catch(s: Seq<CatchFrame>, tag: Cell) -> int
    decreases s.len(),
{
    if s.len() == 0 {
        -1
    } else if s.last().tag == tag {
        s.len() - 1
    } else {
        find_catch(s.drop_last(), tag)
    }
}

/// The search result always lies between "not found" and the top of the
/// control stack.
pub proof fn lemma_find_catch_bounds(s: Seq<CatchFrame>, tag: Cell)
    ensures
        -1 <= find_catch(s, tag) < s.len(),
    decreases s.len(),
{
    if s.len() > 0 && s.last().tag != tag {
        lemma_find_catch_bounds(s.drop_last(), tag);
    }
}

impl Machine {
    /// Format a diagnostic to the error port: append the message
    /// characters to the error port's buffer and record the offending
    /// datum.  Nothing else of the machine changes; the run status in
    /// particular is left to the caller.
    pub fn report(&mut self, s: &Vec<Cell>, x: Cell) -> (r: Cell)
        requires
            old(self).wf(),
        ensures
            final(self).wf(),
            r == UNDEF,
            Machine::quiet_except_err(*old(self), *final(self)),
            final(self).status == old(self).status,
            final(self).erritem == x,
            final(self).ports@[old(self).errport as int].buf@
                == old(self).ports@[old(self).errport as int].buf@ + s@,
    {
        self.erritem = x;
        let ep = self.errport;
        let mut i: usize = 0;
        while i < s.len()
            invariant
                old(self).wf(),
                self.wf(),
                ep == old(self).errport,
                ep < self.ports@.len(),
                i <= s@.len(),
                Machine::quiet_except_err(*old(self), *self),
                self.status == old(self).status,
                self.erritem == x,
                self.ports@[ep as int].buf@
                    == old(self).ports@[ep as int].buf@ + s@.subrange(0, i as int),
            decreases s@.len() - i,
        {
            let ghost b0 = self.ports@[ep as int].buf@;
            let c = s[i];
            self.ports[ep].buf.push(c);
            proof {
                assert(self.ports@[ep as int].buf@ == b0.push(c));
                assert(self.ports@[ep as int].buf@ =~= old(self).ports@[ep as int].buf@
                    + s@.subrange(0, i + 1));
            }
            i = i + 1;
        }
        proof {
            assert(s@.subrange(0, s@.len() as int) =~= s@);
        }
        UNDEF
    }

    /// A fatal, unrecoverable condition (allocation exhaustion under
    /// collection pressure): format the diagnostic and stop the machine
    /// for good.  The host must not resume the dispatch loop.
    pub fn fatal(&mut self, s: &Vec<Cell>)
        requires
            old(self).wf(),
        ensures
            final(self).wf(),
            Machine::quiet_except_err(*old(self), *final(self)),
            final(self).status == Status::Fatal,
            final(self).erritem == UNDEF,
            final(self).ports@[old(self).errport as int].buf@
                == old(self).ports@[old(self).errport as int].buf@ + s@,
    {
        self.report(s, UNDEF);
        self.status = Status::Fatal;
    }

    /// The non-local control transfer on which `catch`/`throw` and error
    /// escalation are built: search the control stack from the top for
    /// the catch frame carrying `tag` (matched by identity), restore the
    /// machine-state snapshot saved there — program position, stack
    /// depths, environment — discard everything entered since, and hand
    /// `val` over in the accumulator.  With no matching frame the throw
    /// is uncaught: a diagnostic goes to the error port and the pending
    /// computation is discarded back to the top level.
    pub fn longjmp(&mut self, tag: Cell, val: Cell) -> (r: bool)
        requires
            old(self).wf(),
        ensures
            final(self).wf(),
            final(self).pool == old(self).pool,
            final(self).vpool == old(self).vpool,
            Machine::tables_same(*old(self), *final(self)),
            final(self).trace == old(self).trace,
            final(self).port_atoms@ == old(self).port_atoms@,
            final(self).inport == old(self).inport,
            final(self).outport == old(self).outport,
            final(self).errport == old(self).errport,
            r == (find_catch(old(self).cstack@, tag) >= 0),
            ({
                let j = find_catch(old(self).cstack@, tag);
                if j >= 0 {
                    let f = old(self).cstack@[j];
                    &&& final(self).cstack@ == old(self).cstack@.subrange(0, j)
                    &&& final(self).env == f.env
                    &&& final(self).code == f.code
                    &&& final(self).ip == f.resume
                    &&& final(self).acc == val
                    &&& final(self).stack@ == (if f.sdep <= old(self).stack@.len() {
                        old(self).stack@.subrange(0, f.sdep as int)
                    } else {
                        old(self).stack@
                    })
                    &&& final(self).rstack@ == (if f.rdep <= old(self).rstack@.len() {
                        old(self).rstack@.subrange(0, f.rdep as int)
                    } else {
                        old(self).rstack@
                    })
                    &&& final(self).status == old(self).status
                    &&& final(self).ports@ == old(self).ports@
                    &&& final(self).erritem == old(self).erritem
                } else {
                    &&& final(self).status == Status::Aborted
                    &&& final(self).erritem == val
                    &&& Machine::vm_regs_same(*old(self), *final(self))
                    &&& final(self).ports@[old(self).errport as int].buf@
                        == old(self).ports@[old(self).errport as int].buf@ + throw_msg_s()
                }
            }),
    {
        let mut i: usize = self.cstack.len();
        proof {
            assert(self.cstack@.subrange(0, self.cstack@.len() as int) =~= self.cstack@);
        }
        while i > 0
            invariant
                old(self).wf(),
                *self == *old(self),
                i <= self.cstack@.len(),
                find_catch(self.cstack@, tag)
                    == find_catch(self.cstack@.subrange(0, i as int), tag),
            decreases i,
        {
            if self.cstack[i - 1].tag == tag {
                proof {
                    let pre = self.cstack@.subrange(0, i as int);
                    assert(pre.last() == self.cstack@[i - 1]);
                    assert(find_catch(pre, tag) == i - 1);
                }
                let f = self.cstack[i - 1];
                self.stack.truncate(f.sdep);
                self.rstack.truncate(f.rdep);
                self.cstack.truncate(i - 1);
                self.env = f.env;
                self.code = f.code;
                self.ip = f.resume;
                self.acc = val;
                return true;
            }
            proof {
                let pre = self.cstack@.subrange(0, i as int);
                assert(pre.last() == self.cstack@[i - 1]);
                assert(pre.drop_last() =~= self.cstack@.subrange(0, i - 1));
            }
            i = i - 1;
        }
        proof {
            assert(find_catch(self.cstack@.subrange(0, 0), tag) == -1);
        }
        let msg = throw_msg();
        self.report(&msg, val);
        self.status = Status::Aborted;
        false
    }

    /// The handler closure installed for the error-tag symbol `tag`, or
    /// `NIL`: the `car` of the value box of the tag's entry on the
    /// handler association list.
    pub open spec fn handler_of(self, tag: Cell) -> Cell {
        let e = self.assq_s(tag, self.handlers, self.walk_fuel());
        if self.pairp_s(e) && self.pairp_s(self.cdr_s(e)) {
            self.car_s(self.cdr_s(e))
        } else {
            NIL
        }
    }

    /// Raise an error with the given tag, message and offending datum.
    /// When a handler closure is installed for the tag, the error value
    /// is rebound, all pending computation is discarded, and the machine
    /// resumes at the handler's extent with the datum as its argument —
    /// unless building the handler frame itself exhausts memory, the
    /// fatal condition.  With no handler, the diagnostic goes to the
    /// error port and the evaluation aborts to the top level.
    pub fn error(&mut self, tag: Cell, s: &Vec<Cell>, x: Cell)
        requires
            old(self).wf(),
        ensures
            final(self).wf(),
            final(self).pinned@ == old(self).pinned@,
            final(self).pool.cap() == old(self).pool.cap(),
            final(self).vpool.cells@.len() == old(self).vpool.cells@.len(),
            final(self).rstack@.len() <= old(self).rstack@.len(),
            crate::gc::heap_unmarked(*old(self)) ==> crate::gc::heap_unmarked(*final(self)),
            forall|x: Cell|
                #[trigger] old(self).is_root(x) && old(self).in_pool(x)
                    && !old(self).pool.is_free(x)
                    && x != old(self).binding_box(old(self).s_errval)
                    ==> !final(self).pool.is_free(x)
                        && final(self).car_s(x) == old(self).car_s(x)
                        && final(self).cdr_s(x) == old(self).cdr_s(x)
                        && (final(self).tag_s(x) == old(self).tag_s(x)
                            || final(self).tag_s(x) == (old(self).tag_s(x) & !MARK_TAG)),
            ({
                let h = old(self).handler_of(tag);
                if !(old(self).closurep_s(h) && old(self).pairp_s(old(self).cdr_s(h))) {
                    &&& final(self).status == Status::Aborted
                    &&& final(self).erritem == x
                    &&& final(self).ports@[old(self).errport as int].buf@
                        == old(self).ports@[old(self).errport as int].buf@ + s@
                    &&& final(self).pool == old(self).pool
                    &&& final(self).vpool == old(self).vpool
                    &&& Machine::vm_regs_same(*old(self), *final(self))
                } else {
                    ||| ({
                        &&& final(self).status == Status::Running
                        &&& final(self).code == old(self).car_s(old(self).cdr_s(h))
                        &&& final(self).ip == 0
                        &&& final(self).acc == x
                        &&& final(self).stack@.len() == 0
                        &&& final(self).rstack@.len() == 0
                        &&& final(self).cstack@.len() == 0
                        &&& final(self).pairp_s(final(self).env)
                        &&& final(self).pairp_s(final(self).car_s(final(self).env))
                        &&& final(self).car_s(final(self).car_s(final(self).env)) == x
                        &&& final(self).cdr_s(final(self).car_s(final(self).env)) == NIL
                        &&& final(self).cdr_s(final(self).env)
                            == old(self).cdr_s(old(self).cdr_s(h))
                    })
                    ||| final(self).status == Status::Fatal
                }
            }),
            old(self).pool.free@.len() >= 2 ==> final(self).status != Status::Fatal,
            ({
                let h = old(self).handler_of(tag);
                let b = old(self).binding_box(old(self).s_errval);
                (old(self).closurep_s(h) && old(self).pairp_s(old(self).cdr_s(h))
                    && old(self).pool.free@.len() >= 2 && b != NIL && !old(
                    self,
                ).pool.is_free(b)) ==> final(self).car_s(b) == x
            }),
    {
        proof {
            lemma_tag_constants();
        }
        let e = self.assq(tag, self.handlers);
        let mut h = NIL;
        if self.pairp(e) {
            let b = self.cdr_of(e);
            if self.pairp(b) {
                h = self.car_of(b);
            }
        }
        let mut usable = false;
        let mut hcode = NIL;
        let mut henv = NIL;
        if self.closurep(h) {
            let cb = self.cdr_of(h);
            if self.pairp(cb) {
                usable = true;
                hcode = self.car_of(cb);
                henv = self.cdr_of(cb);
            }
        }
        if !usable {
            self.report(s, x);
            self.status = Status::Aborted;
            return;
        }
        let sv = self.s_errval;
        self.bindset(sv, x);
        let ghost mb = *self;
        proof {
            assert forall|y: Cell| #[trigger] old(self).is_root(y) implies mb.is_root(y) by {
                crate::machine::lemma_root_transfer(*old(self), mb, y);
            }
        }
        let frame = match self.cons3(x, NIL, 0) {
            Ok(c) => c,
            Err(_) => {
                proof {
                    assert forall|y: Cell|
                        #[trigger] old(self).is_root(y) && old(self).in_pool(y)
                            && !old(self).pool.is_free(y)
                            && y != old(self).binding_box(old(self).s_errval)
                        implies !self.pool.is_free(y)
                            && self.car_s(y) == old(self).car_s(y)
                            && self.cdr_s(y) == old(self).cdr_s(y)
                            && (self.tag_s(y) == old(self).tag_s(y)
                                || self.tag_s(y) == (old(self).tag_s(y) & !MARK_TAG)) by {
                        assert(mb.is_root(y));
                        assert(Machine::root_survives(mb, *self, y));
                    }
                }
                return;
            },
        };
        let ghost m1 = *self;
        proof {
            assert forall|y: Cell|
                #[trigger] old(self).is_root(y) && old(self).in_pool(y)
                    && !old(self).pool.is_free(y)
                    && y != old(self).binding_box(old(self).s_errval)
                implies !m1.pool.is_free(y)
                    && m1.car_s(y) == old(self).car_s(y)
                    && m1.cdr_s(y) == old(self).cdr_s(y)
                    && (m1.tag_s(y) == old(self).tag_s(y)
                        || m1.tag_s(y) == (old(self).tag_s(y) & !MARK_TAG)) by {
                assert(mb.is_root(y));
                assert(frame != y && Machine::root_survives(mb, m1, y));
            }
        }
        self.pinned.push(frame);
        proof {
            crate::gc::lemma_contains_after_push(m1.pinned@, frame);
            assert(self.pinned@ == m1.pinned@.push(frame));
            assert(m1.pinned@.push(frame).contains(frame));
            assert(self.is_root(frame));
            assert forall|y: Cell| #[trigger] m1.is_root(y) implies self.is_root(y) by {
                if m1.pinned@.contains(y) {
                    assert(m1.pinned@.push(frame).contains(y));
                }
                crate::machine::lemma_root_transfer(m1, *self, y);
            }
        }
        let ghost m2 = *self;
        let env2 = match self.cons3(frame, henv, 0) {
            Ok(c) => c,
            Err(_) => {
                self.pinned.pop();
                proof {
                    assert(self.pinned@ =~= old(self).pinned@);
                    assert forall|y: Cell|
                        #[trigger] old(self).is_root(y) && old(self).in_pool(y)
                            && !old(self).pool.is_free(y)
                            && y != old(self).binding_box(old(self).s_errval)
                        implies !self.pool.is_free(y)
                            && self.car_s(y) == old(self).car_s(y)
                            && self.cdr_s(y) == old(self).cdr_s(y)
                            && (self.tag_s(y) == old(self).tag_s(y)
                                || self.tag_s(y) == (old(self).tag_s(y) & !MARK_TAG)) by {
                        assert(mb.is_root(y));
                        assert(m1.is_root(y) && m2.is_root(y));
                        assert(!m2.pool.is_free(y));
                        assert(Machine::root_survives(m2, *self, y));
                        lemma_mark_ops(old(self).tag_s(y));
                        lemma_mark_ops(old(self).tag_s(y) & !MARK_TAG);
                    }
                }
                return;
            },
        };
        self.pinned.pop();
        proof {
            assert(self.pinned@ =~= old(self).pinned@);
            assert(m2.is_root(frame) && m2.in_pool(frame) && !m2.pool.is_free(frame));
            assert(Machine::root_survives(m2, *self, frame));
            lemma_mark_ops(m2.tag_s(frame));
            let b = old(self).binding_box(old(self).s_errval);
            if old(self).pool.free@.len() >= 2 && b != NIL && !old(self).pool.is_free(b) {
                // The rebound error-value box is live, so neither fresh
                // cons can land on it.
                assert(mb.pool.cars@[b as int] == x);
                crate::pool::lemma_alloc_preserves_live(mb.pool, m1.pool, frame, x, NIL, 0,
                    b);
                crate::pool::lemma_alloc_preserves_live(m2.pool, self.pool, env2, frame,
                    henv, 0, b);
                assert(self.car_s(b) == x);
            }
            assert forall|y: Cell|
                #[trigger] old(self).is_root(y) && old(self).in_pool(y)
                    && !old(self).pool.is_free(y)
                    && y != old(self).binding_box(old(self).s_errval)
                implies !self.pool.is_free(y)
                    && self.car_s(y) == old(self).car_s(y)
                    && self.cdr_s(y) == old(self).cdr_s(y)
                    && (self.tag_s(y) == old(self).tag_s(y)
                        || self.tag_s(y) == (old(self).tag_s(y) & !MARK_TAG)) by {
                assert(mb.is_root(y));
                assert(m1.is_root(y) && m2.is_root(y));
                assert(!m2.pool.is_free(y));
                assert(env2 != y && Machine::root_survives(m2, *self, y));
                lemma_mark_ops(old(self).tag_s(y));
                lemma_mark_ops(old(self).tag_s(y) & !MARK_TAG);
            }
        }
        self.stack = Vec::new();
        self.rstack = Vec::new();
        self.cstack = Vec::new();
        self.env = env2;
        self.code = hcode;
        self.ip = 0;
        self.acc = x;
        self.status = Status::Running;
    }

    /// Install a handler closure for the error-tag symbol `tag`: a fresh
    /// entry at the head of the handler association list, so later raises
    /// of that tag dispatch to `h`.
    pub fn install_handler(&mut self, tag: Cell, h: Cell) -> (r: Result<Cell, Fault>)
        requires
            old(self).wf(),
        ensures
            final(self).wf(),
            final(self).pinned@ == old(self).pinned@,
            Machine::vm_regs_same(*old(self), *final(self)),
            final(self).symbols == old(self).symbols,
            final(self).s_errval == old(self).s_errval,
            final(self).s_div0 == old(self).s_div0,
            final(self).s_immut == old(self).s_immut,
            final(self).s_type == old(self).s_type,
            final(self).s_arity == old(self).s_arity,
            final(self).s_oflow == old(self).s_oflow,
            final(self).trace == old(self).trace,
            final(self).port_atoms@ == old(self).port_atoms@,
            final(self).inport == old(self).inport,
            final(self).outport == old(self).outport,
            final(self).errport == old(self).errport,
            final(self).pool.cap() == old(self).pool.cap(),
            final(self).vpool.cells@.len() == old(self).vpool.cells@.len(),
            final(self).vpool.freetop == old(self).vpool.freetop,
            crate::gc::heap_unmarked(*old(self)) ==> crate::gc::heap_unmarked(*final(self)),
            final(self).glob == old(self).glob,
            match r {
                Ok(entry) => final(self).handler_of(tag) == h
                    && final(self).status == old(self).status
                    && final(self).ports@ == old(self).ports@
                    && final(self).erritem == old(self).erritem,
                Err(f) => final(self).status == Status::Fatal,
            },
            old(self).pool.free@.len() >= 3 ==> r is Ok
                && final(self).pool.free@.len() >= old(self).pool.free@.len() - 3,
    {
        proof {
            lemma_tag_constants();
        }
        let boxc = match self.cons3(h, NIL, 0) {
            Ok(c) => c,
            Err(f) => {
                return Err(f);
            },
        };
        let ghost m1 = *self;
        self.pinned.push(boxc);
        proof {
            crate::gc::lemma_contains_after_push(m1.pinned@, boxc);
            assert(self.pinned@ == m1.pinned@.push(boxc));
            assert(m1.pinned@.push(boxc).contains(boxc));
            assert(self.is_root(boxc));
        }
        let ghost m2 = *self;
        let entry = match self.cons3(tag, boxc, 0) {
            Ok(c) => c,
            Err(f) => {
                self.pinned.pop();
                proof {
                    assert(self.pinned@ =~= old(self).pinned@);
                }
                return Err(f);
            },
        };
        let ghost m3 = *self;
        self.pinned.push(entry);
        proof {
            crate::gc::lemma_contains_after_push(m3.pinned@, entry);
            assert(self.pinned@ == m3.pinned@.push(entry));
            assert(m3.pinned@.push(entry).contains(entry));
            assert(self.is_root(entry));
            assert(m3.pinned@.contains(boxc));
            assert(self.pinned@.contains(boxc));
            assert(self.is_root(boxc));
            assert(m2.is_root(boxc) && m2.in_pool(boxc) && !m2.pool.is_free(boxc));
        }
        let ghost m4 = *self;
        let hd = self.handlers;
        let chain = match self.cons3(entry, hd, 0) {
            Ok(c) => c,
            Err(f) => {
                self.pinned.pop();
                self.pinned.pop();
                proof {
                    assert(self.pinned@ =~= old(self).pinned@);
                }
                return Err(f);
            },
        };
        self.pinned.pop();
        self.pinned.pop();
        self.handlers = chain;
        proof {
            assert(self.pinned@ =~= old(self).pinned@);
            assert(m4.is_root(entry) && m4.in_pool(entry) && !m4.pool.is_free(entry));
            assert(m4.is_root(boxc) && m4.in_pool(boxc) && !m4.pool.is_free(boxc));
            assert(Machine::root_survives(m4, *self, entry));
            assert(Machine::root_survives(m4, *self, boxc));
            lemma_mark_ops(m4.tag_s(entry));
            lemma_mark_ops(m4.tag_s(boxc));
            lemma_mark_ops(m2.tag_s(boxc));
            assert(self.pairp_s(chain));
            assert(self.car_s(chain) == entry);
            assert(self.pairp_s(entry));
            assert(self.car_s(entry) == tag);
            assert(self.cdr_s(entry) == boxc);
            assert(self.pairp_s(boxc));
            assert(self.car_s(boxc) == h);
            assert(self.walk_fuel() >= 1);
            assert(self.assq_s(tag, chain, self.walk_fuel()) == entry);
        }
        Ok(entry)
    }

    /// Create a global binding for `sym` holding `val`: a fresh entry at
    /// the head of the global association list, so `bindset` and the
    /// error machinery can rebind it later.
    pub fn defglob(&mut self, sym: Cell, val: Cell) -> (r: Result<Cell, Fault>)
        requires
            old(self).wf(),
        ensures
            final(self).wf(),
            final(self).pinned@ == old(self).pinned@,
            Machine::vm_regs_same(*old(self), *final(self)),
            final(self).symbols == old(self).symbols,
            final(self).s_errval == old(self).s_errval,
            final(self).s_div0 == old(self).s_div0,
            final(self).s_immut == old(self).s_immut,
            final(self).s_type == old(self).s_type,
            final(self).s_arity == old(self).s_arity,
            final(self).s_oflow == old(self).s_oflow,
            final(self).trace == old(self).trace,
            final(self).port_atoms@ == old(self).port_atoms@,
            final(self).inport == old(self).inport,
            final(self).outport == old(self).outport,
            final(self).errport == old(self).errport,
            final(self).pool.cap() == old(self).pool.cap(),
            final(self).vpool.cells@.len() == old(self).vpool.cells@.len(),
            final(self).vpool.freetop == old(self).vpool.freetop,
            crate::gc::heap_unmarked(*old(self)) ==> crate::gc::heap_unmarked(*final(self)),
            final(self).handlers == old(self).handlers,
            match r {
                Ok(boxc) => final(self).binding_box(sym) == boxc && boxc != NIL
                    && final(self).car_s(boxc) == val
                    && final(self).status == old(self).status
                    && final(self).ports@ == old(self).ports@
                    && final(self).erritem == old(self).erritem,
                Err(f) => final(self).status == Status::Fatal,
            },
            old(self).pool.free@.len() >= 3 ==> r is Ok
                && final(self).pool.free@.len() >= old(self).pool.free@.len() - 3,
            old(self).pool.free@.len() >= 3 ==> forall|y: Cell|
                0 <= y < old(self).pool.cap() && !old(self).pool.is_free(y)
                    ==> final(self).car_s(y) == old(self).car_s(y)
                        && #[trigger] final(self).cdr_s(y) == old(self).cdr_s(y)
                        && final(self).tag_s(y) == old(self).tag_s(y)
                        && !final(self).pool.is_free(y),
    {
        proof {
            lemma_tag_constants();
        }
        let boxc = match self.cons3(val, NIL, 0) {
            Ok(c) => c,
            Err(f) => {
                return Err(f);
            },
        };
        let ghost m1 = *self;
        self.pinned.push(boxc);
        proof {
            crate::gc::lemma_contains_after_push(m1.pinned@, boxc);
            assert(self.pinned@ == m1.pinned@.push(boxc));
            assert(m1.pinned@.push(boxc).contains(boxc));
            assert(self.is_root(boxc));
        }
        let ghost m2 = *self;
        let entry = match self.cons3(sym, boxc, 0) {
            Ok(c) => c,
            Err(f) => {
                self.pinned.pop();
                proof {
                    assert(self.pinned@ =~= old(self).pinned@);
                }
                return Err(f);
            },
        };
        let ghost m3 = *self;
        self.pinned.push(entry);
        proof {
            crate::gc::lemma_contains_after_push(m3.pinned@, entry);
            assert(self.pinned@ == m3.pinned@.push(entry));
            assert(m3.pinned@.push(entry).contains(entry));
            assert(self.is_root(entry));
            assert(m3.pinned@.contains(boxc));
            assert(self.pinned@.contains(boxc));
            assert(self.is_root(boxc));
            assert(m2.is_root(boxc) && m2.in_pool(boxc) && !m2.pool.is_free(boxc));
        }
        let ghost m4 = *self;
        let g = self.glob;
        let chain = match self.cons3(entry, g, 0) {
            Ok(c) => c,
            Err(f) => {
                self.pinned.pop();
                self.pinned.pop();
                proof {
                    assert(self.pinned@ =~= old(self).pinned@);
                }
                return Err(f);
            },
        };
        self.pinned.pop();
        self.pinned.pop();
        self.glob = chain;
        proof {
            assert(self.pinned@ =~= old(self).pinned@);
            assert(m4.is_root(entry) && m4.in_pool(entry) && !m4.pool.is_free(entry));
            assert(m4.is_root(boxc) && m4.in_pool(boxc) && !m4.pool.is_free(boxc));
            assert(Machine::root_survives(m4, *self, entry));
            assert(Machine::root_survives(m4, *self, boxc));
            lemma_mark_ops(m4.tag_s(entry));
            lemma_mark_ops(m4.tag_s(boxc));
            lemma_mark_ops(m2.tag_s(boxc));
            assert(self.pairp_s(chain));
            assert(self.car_s(chain) == entry);
            assert(self.pairp_s(entry));
            assert(self.car_s(entry) == sym);
            assert(self.cdr_s(entry) == boxc);
            assert(self.pairp_s(boxc));
            assert(self.car_s(boxc) == val);
            assert(!self.constp_s(boxc));
            assert(self.walk_fuel() >= 1);
            assert(self.assq_s(sym, chain, self.walk_fuel()) == entry);
            if old(self).pool.free@.len() >= 3 {
                assert forall|y: Cell|
                    0 <= y < old(self).pool.cap() && !old(self).pool.is_free(y)
                    implies self.car_s(y) == old(self).car_s(y) && self.cdr_s(y)
                        == old(self).cdr_s(y) && self.tag_s(y) == old(self).tag_s(y)
                        && !self.pool.is_free(y) by {
                    crate::pool::lemma_alloc_preserves_live(old(self).pool, m1.pool, boxc,
                        val, NIL, 0, y);
                    crate::pool::lemma_alloc_preserves_live(m2.pool, m3.pool, entry, sym,
                        boxc, 0, y);
                    crate::pool::lemma_alloc_preserves_live(m4.pool, self.pool, chain,
                        entry, g, 0, y);
                }
            }
        }
        Ok(boxc)
    }
}

/// The characters of the diagnostic for an uncaught throw.
pub open spec fn throw_msg_s() -> Seq<Cell> {
    seq![116, 104, 114, 111, 119]
}

/// Build the uncaught-throw diagnostic.
fn throw_msg() -> (r: Vec<Cell>)
    ensures
        r@ == throw_msg_s(),
{
    let mut r: Vec<Cell> = Vec::new();
    r.push(116);
    r.push(104);
    r.push(114);
    r.push(111);
    r.push(119);
    proof {
        assert(r@ =~= throw_msg_s());
    }
    r
}

} // verus!
