//! The port abstraction as the VM sees it: up to `NPORTS` open streams,
//! each an in-memory character buffer in the port table, designated by
//! `PORT`-tagged atoms whose `cdr` holds the slot number.  Locked ports
//! (the console triple) survive the bulk close-all operation.  The host
//! feeds input buffers and drains output buffers at the process boundary.

use vstd::prelude::*;
use crate::cell::Cell;
use crate::cell::EOFMARK;
use crate::cell::NIL;
use crate::cell::ATOM_TAG;
use crate::cell::PORT_TAG;
use crate::cell::USED_TAG;
use crate::cell::T_INPORT;
use crate::cell::T_OUTPORT;
use crate::machine::Machine;
use crate::machine::PortSlot;
use crate::machine::Fault;
use crate::machine::Status;
use crate::machine::NPORTS;

verus! {

/// Some slot of the port table is unoccupied.
pub open spec fn has_free_slot(m: Machine) -> bool {
    exists|j: int| 0 <= j < m.ports@.len() && !(#[trigger] m.ports@[j]).used
}

impl Machine {
    /// Select the current input port.  Succeeds exactly on the number of
    /// an occupied input slot.
    pub fn set_inport(&mut self, pn: usize) -> (r: bool)
        requires
            old(self).wf(),
        ensures
            final(self).wf(),
            r == (pn < NPORTS && old(self).ports@[pn as int].used
                && old(self).ports@[pn as int].kind == T_INPORT),
            r ==> final(self).inport == pn,
            !r ==> final(self).inport == old(self).inport,
            final(self).pool == old(self).pool,
            final(self).vpool == old(self).vpool,
            Machine::vm_regs_same(*old(self), *final(self)),
            Machine::tables_same(*old(self), *final(self)),
            final(self).trace == old(self).trace,
            final(self).ports@ == old(self).ports@,
            final(self).port_atoms@ == old(self).port_atoms@,
            final(self).outport == old(self).outport,
            final(self).errport == old(self).errport,
            final(self).erritem == old(self).erritem,
            final(self).status == old(self).status,
    {
        if pn < NPORTS && self.ports[pn].used && self.ports[pn].kind == T_INPORT {
            self.inport = pn;
            true
        } else {
            false
        }
    }

    /// Select the current output port.  Succeeds exactly on the number of
    /// an occupied output slot.
    pub fn set_outport(&mut self, pn: usize) -> (r: bool)
        requires
            old(self).wf(),
        ensures
            final(self).wf(),
            r == (pn < NPORTS && old(self).ports@[pn as int].used
                && old(self).ports@[pn as int].kind == T_OUTPORT),
            r ==> final(self).outport == pn,
            !r ==> final(self).outport == old(self).outport,
            final(self).pool == old(self).pool,
            final(self).vpool == old(self).vpool,
            Machine::vm_regs_same(*old(self), *final(self)),
            Machine::tables_same(*old(self), *final(self)),
            final(self).trace == old(self).trace,
            final(self).ports@ == old(self).ports@,
            final(self).port_atoms@ == old(self).port_atoms@,
            final(self).inport == old(self).inport,
            final(self).errport == old(self).errport,
            final(self).erritem == old(self).erritem,
            final(self).status == old(self).status,
    {
        if pn < NPORTS && self.ports[pn].used && self.ports[pn].kind == T_OUTPORT {
            self.outport = pn;
            true
        } else {
            false
        }
    }

    /// Open a port of the given kind: claim the first unoccupied table
    /// slot and build its designating atom.  With every slot in use this
    /// is the recoverable resource error, not a fatal condition.
    pub fn open_port(&mut self, kind: Cell) -> (r: Result<Cell, Fault>)
        requires
            old(self).wf(),
            kind == T_INPORT || kind == T_OUTPORT,
        ensures
            final(self).wf(),
            final(self).pool.cap() == old(self).pool.cap(),
            Machine::vm_regs_same(*old(self), *final(self)),
            Machine::tables_same(*old(self), *final(self)),
            final(self).trace == old(self).trace,
            final(self).inport == old(self).inport,
            final(self).outport == old(self).outport,
            final(self).errport == old(self).errport,
            match r {
                Ok(a) => {
                    &&& final(self).status == old(self).status
                    &&& final(self).atom_typep_s(a, kind)
                    &&& crate::cell::bit_on(final(self).tag_s(a), PORT_TAG)
                    &&& 0 <= final(self).cdr_s(a) < NPORTS
                    &&& ({
                        let j = final(self).cdr_s(a) as int;
                        &&& !old(self).ports@[j].used
                        &&& final(self).ports@[j].used
                        &&& !final(self).ports@[j].locked
                        &&& final(self).ports@[j].kind == kind
                        &&& final(self).ports@[j].buf@.len() == 0
                        &&& final(self).ports@[j].pos == 0
                        &&& final(self).port_atoms@ == old(self).port_atoms@.update(j, a)
                        &&& forall|i: int|
                            0 <= i < NPORTS && i != j ==> final(self).ports@[i]
                                == old(self).ports@[i]
                    })
                },
                Err(f) => {
                    &&& (f == Fault::PortsExhausted || f == Fault::OutOfNodes)
                    &&& (f == Fault::PortsExhausted ==> *final(self) == *old(self)
                        && !has_free_slot(*old(self)))
                    &&& (f == Fault::OutOfNodes ==> final(self).status == Status::Fatal)
                },
            },
            (has_free_slot(*old(self)) && old(self).pool.free@.len() > 0) ==> r is Ok,
            crate::gc::heap_unmarked(*old(self)) ==> crate::gc::heap_unmarked(*final(self)),
    {
        proof {
            assert((0x01i32 | 0x10i32 | 0x20i32) & 0x02i32 == 0) by (bit_vector);
        }
        let mut pn: usize = 0;
        while pn < NPORTS && self.ports[pn].used
            invariant
                *self == *old(self),
                self.wf(),
                pn <= NPORTS,
                forall|j: int| 0 <= j < pn ==> (#[trigger] self.ports@[j]).used,
            decreases NPORTS - pn,
        {
            pn = pn + 1;
        }
        if pn == NPORTS {
            return Err(Fault::PortsExhausted);
        }
        let a = match self.cons3(kind, pn as i32, ATOM_TAG | PORT_TAG | USED_TAG) {
            Ok(a) => a,
            Err(_) => {
                return Err(Fault::OutOfNodes);
            },
        };
        self.ports[pn] = PortSlot {
            used: true,
            locked: false,
            kind,
            buf: Vec::new(),
            pos: 0,
        };
        self.port_atoms[pn] = a;
        proof {
            assert((0x01i32 | 0x10i32 | 0x20i32) & 0x01i32 != 0) by (bit_vector);
            assert((0x01i32 | 0x10i32 | 0x20i32) & 0x10i32 != 0) by (bit_vector);
        }
        Ok(a)
    }

    /// Close the port in slot `pn`: succeeds exactly on an occupied,
    /// unlocked slot; its designating atom is dropped from the root set.
    pub fn close_port(&mut self, pn: usize) -> (r: bool)
        requires
            old(self).wf(),
        ensures
            final(self).wf(),
            r == (pn < NPORTS && old(self).ports@[pn as int].used
                && !old(self).ports@[pn as int].locked),
            !r ==> *final(self) == *old(self),
            r ==> {
                &&& !final(self).ports@[pn as int].used
                &&& final(self).port_atoms@ == old(self).port_atoms@.update(pn as int, NIL)
                &&& forall|i: int|
                    0 <= i < NPORTS && i != pn ==> final(self).ports@[i]
                        == old(self).ports@[i]
                &&& final(self).pool == old(self).pool
                &&& final(self).vpool == old(self).vpool
                &&& Machine::vm_regs_same(*old(self), *final(self))
                &&& Machine::tables_same(*old(self), *final(self))
                &&& final(self).status == old(self).status
            },
    {
        if pn < NPORTS && self.ports[pn].used && !self.ports[pn].locked {
            self.ports[pn] = PortSlot {
                used: false,
                locked: false,
                kind: NIL,
                buf: Vec::new(),
                pos: 0,
            };
            self.port_atoms[pn] = NIL;
            true
        } else {
            false
        }
    }

    /// Close every port except the locked ones: the console triple (and
    /// anything else locked) survives.
    pub fn close_all_ports(&mut self)
        requires
            old(self).wf(),
        ensures
            final(self).wf(),
            final(self).pool == old(self).pool,
            final(self).vpool == old(self).vpool,
            Machine::vm_regs_same(*old(self), *final(self)),
            Machine::tables_same(*old(self), *final(self)),
            final(self).status == old(self).status,
            forall|i: int|
                0 <= i < NPORTS && (#[trigger] old(self).ports@[i]).locked
                    ==> final(self).ports@[i] == old(self).ports@[i]
                        && final(self).port_atoms@[i] == old(self).port_atoms@[i],
            forall|i: int|
                0 <= i < NPORTS && !(#[trigger] old(self).ports@[i]).locked
                    ==> !final(self).ports@[i].used && final(self).port_atoms@[i] == NIL,
    {
        let mut pn: usize = 0;
        while pn < NPORTS
            invariant
                old(self).wf(),
                self.wf(),
                pn <= NPORTS,
                self.pool == old(self).pool,
                self.vpool == old(self).vpool,
                Machine::vm_regs_same(*old(self), *self),
                Machine::tables_same(*old(self), *self),
                self.trace == old(self).trace,
                self.inport == old(self).inport,
                self.outport == old(self).outport,
                self.errport == old(self).errport,
                self.erritem == old(self).erritem,
                self.status == old(self).status,
                forall|i: int|
                    pn <= i < NPORTS ==> #[trigger] self.ports@[i] == old(self).ports@[i],
                forall|i: int|
                    pn <= i < NPORTS ==> #[trigger] self.port_atoms@[i]
                        == old(self).port_atoms@[i],
                forall|i: int|
                    0 <= i < pn && (#[trigger] old(self).ports@[i]).locked
                        ==> self.ports@[i] == old(self).ports@[i]
                            && self.port_atoms@[i] == old(self).port_atoms@[i],
                forall|i: int|
                    0 <= i < pn && !(#[trigger] old(self).ports@[i]).locked
                        ==> !self.ports@[i].used && self.port_atoms@[i] == NIL,
            decreases NPORTS - pn,
        {
            if !self.ports[pn].locked {
                self.ports[pn] = PortSlot {
                    used: false,
                    locked: false,
                    kind: NIL,
                    buf: Vec::new(),
                    pos: 0,
                };
                self.port_atoms[pn] = NIL;
            }
            pn = pn + 1;
        }
    }

    /// Read the next character cell from the current input port: its
    /// buffer entry at the read position, or the end-of-file sentinel
    /// when the buffer is drained or the slot is no open input port.
    pub fn readc(&mut self) -> (r: Cell)
        requires
            old(self).wf(),
        ensures
            final(self).wf(),
            ({
                let p = old(self).inport as int;
                let slot = old(self).ports@[p];
                if slot.used && slot.kind == T_INPORT && slot.pos < slot.buf@.len() {
                    &&& r == slot.buf@[slot.pos as int]
                    &&& final(self).ports@[p].pos == slot.pos + 1
                    &&& final(self).ports@[p].buf@ == slot.buf@
                    &&& final(self).ports@[p].used == slot.used
                    &&& final(self).ports@[p].locked == slot.locked
                    &&& final(self).ports@[p].kind == slot.kind
                    &&& forall|i: int|
                        0 <= i < NPORTS && i != p ==> final(self).ports@[i]
                            == old(self).ports@[i]
                    &&& final(self).pool == old(self).pool
                    &&& final(self).vpool == old(self).vpool
                    &&& Machine::vm_regs_same(*old(self), *final(self))
                    &&& Machine::tables_same(*old(self), *final(self))
                    &&& final(self).status == old(self).status
                } else {
                    r == EOFMARK && *final(self) == *old(self)
                }
            }),
    {
        let p = self.inport;
        if self.ports[p].used && self.ports[p].kind == T_INPORT
            && self.ports[p].pos < self.ports[p].buf.len() {
            let c = self.ports[p].buf[self.ports[p].pos];
            self.ports[p].pos = self.ports[p].pos + 1;
            c
        } else {
            EOFMARK
        }
    }

    /// Append one character cell to the current output port's buffer.
    /// Returns the character, or the end-of-file sentinel when the slot
    /// is no open output port.
    pub fn writec(&mut self, c: Cell) -> (r: Cell)
        requires
            old(self).wf(),
        ensures
            final(self).wf(),
            ({
                let p = old(self).outport as int;
                let slot = old(self).ports@[p];
                if slot.used && slot.kind == T_OUTPORT {
                    &&& r == c
                    &&& final(self).ports@[p].buf@ == slot.buf@.push(c)
                    &&& final(self).ports@[p].pos == slot.pos
                    &&& final(self).ports@[p].used == slot.used
                    &&& final(self).ports@[p].locked == slot.locked
                    &&& final(self).ports@[p].kind == slot.kind
                    &&& forall|i: int|
                        0 <= i < NPORTS && i != p ==> final(self).ports@[i]
                            == old(self).ports@[i]
                    &&& final(self).pool == old(self).pool
                    &&& final(self).vpool == old(self).vpool
                    &&& Machine::vm_regs_same(*old(self), *final(self))
                    &&& Machine::tables_same(*old(self), *final(self))
                    &&& final(self).status == old(self).status
                } else {
                    r == EOFMARK && *final(self) == *old(self)
                }
            }),
    {
        let p = self.outport;
        if self.ports[p].used && self.ports[p].kind == T_OUTPORT {
            self.ports[p].buf.push(c);
            c
        } else {
            EOFMARK
        }
    }

    /// Hand input to a port: append the characters to the buffer of slot
    /// `pn`.  Succeeds exactly on an occupied input slot.
    pub fn feed_input(&mut self, pn: usize, data: &Vec<Cell>) -> (r: bool)
        requires
            old(self).wf(),
        ensures
            final(self).wf(),
            r == (pn < NPORTS && old(self).ports@[pn as int].used
                && old(self).ports@[pn as int].kind == T_INPORT),
            !r ==> *final(self) == *old(self),
            r ==> {
                &&& final(self).ports@[pn as int].buf@
                    == old(self).ports@[pn as int].buf@ + data@
                &&& final(self).ports@[pn as int].pos == old(self).ports@[pn as int].pos
                &&& final(self).ports@[pn as int].used
                &&& final(self).ports@[pn as int].kind == T_INPORT
                &&& final(self).ports@[pn as int].locked
                    == old(self).ports@[pn as int].locked
                &&& forall|i: int|
                    0 <= i < NPORTS && i != pn ==> final(self).ports@[i]
                        == old(self).ports@[i]
                &&& final(self).pool == old(self).pool
                &&& final(self).vpool == old(self).vpool
                &&& Machine::vm_regs_same(*old(self), *final(self))
                &&& Machine::tables_same(*old(self), *final(self))
                &&& final(self).status == old(self).status
            },
    {
        if !(pn < NPORTS && self.ports[pn].used && self.ports[pn].kind == T_INPORT) {
            return false;
        }
        let mut i: usize = 0;
        while i < data.len()
            invariant
                old(self).wf(),
                self.wf(),
                pn < NPORTS,
                i <= data@.len(),
                self.ports@[pn as int].buf@
                    == old(self).ports@[pn as int].buf@ + data@.subrange(0, i as int),
                self.ports@[pn as int].pos == old(self).ports@[pn as int].pos,
                self.ports@[pn as int].used == old(self).ports@[pn as int].used,
                self.ports@[pn as int].kind == old(self).ports@[pn as int].kind,
                self.ports@[pn as int].locked == old(self).ports@[pn as int].locked,
                forall|j: int|
                    0 <= j < NPORTS && j != pn ==> self.ports@[j] == old(self).ports@[j],
                self.pool == old(self).pool,
                self.vpool == old(self).vpool,
                Machine::vm_regs_same(*old(self), *self),
                Machine::tables_same(*old(self), *self),
                self.trace == old(self).trace,
                self.port_atoms@ == old(self).port_atoms@,
                self.inport == old(self).inport,
                self.outport == old(self).outport,
                self.errport == old(self).errport,
                self.erritem == old(self).erritem,
                self.status == old(self).status,
            decreases data@.len() - i,
        {
            let ghost b0 = self.ports@[pn as int].buf@;
            let c = data[i];
            self.ports[pn].buf.push(c);
            proof {
                assert(self.ports@[pn as int].buf@ =~= old(self).ports@[pn as int].buf@
                    + data@.subrange(0, i + 1));
            }
            i = i + 1;
        }
        proof {
            assert(data@.subrange(0, data@.len() as int) =~= data@);
        }
        true
    }

    /// Borrow the buffer of port slot `pn`: what an output port has
    /// accumulated, or what an input port still holds.
    pub fn port_buf(&self, pn: usize) -> (r: &Vec<Cell>)
        requires
            self.wf(),
            pn < NPORTS,
        ensures
            r@ == self.ports@[pn as int].buf@,
    {
        &self.ports[pn].buf
    }
}

} // verus!
