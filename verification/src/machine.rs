//! The runtime context: the two memory pools, the virtual machine's
//! register set (accumulator, value stack, environment chain, code object
//! and program pointer, return stack, catch-frame control stack), the
//! symbol table, the global and error-handler association lists, the trace
//! ring, and the port table.  Every core operation takes this context
//! explicitly; there is no hidden global state.

use vstd::prelude::*;
use crate::cell::Cell;
use crate::cell::bit_on;
use crate::cell::lemma_tag_constants;
use crate::cell::lemma_mark_ops;
use crate::cell::NIL;
use crate::cell::UNDEF;
use crate::cell::ATOM_TAG;
use crate::cell::MARK_TAG;
use crate::cell::VECTOR_TAG;
use crate::cell::PORT_TAG;
use crate::cell::USED_TAG;
use crate::cell::LOCK_TAG;
use crate::cell::CONST_TAG;
use crate::cell::T_BYTECODE;
use crate::cell::T_CATCHTAG;
use crate::cell::T_CHAR;
use crate::cell::T_CLOSURE;
use crate::cell::T_FIXNUM;
use crate::cell::T_INPORT;
use crate::cell::T_OUTPORT;
use crate::cell::T_STRING;
use crate::cell::T_SYMBOL;
use crate::cell::T_VECTOR;
use crate::pool::NodePool;
use crate::pool::alloc_nodepool;
use crate::vecpool::VecPool;
use crate::vecpool::VEC_HEADER;
use crate::vecpool::alloc_vecpool;
use crate::trace::Trace;
use crate::trace::alloc_tracevec;

verus! {

/// Number of slots in the port table.
pub const NPORTS: usize = 20;

/// Whether the machine is still running, and if not, why it stopped.
#[derive(Clone, Copy, PartialEq, Eq, Structural, Debug)]
pub enum Status {
    /// The dispatch loop may continue.
    Running,
    /// A `halt` opcode (or a `return` with no pending frame) ended the
    /// evaluation; the result is in the accumulator.
    Done,
    /// An uncaught throw or an unhandled error discarded the pending
    /// computation; control is back at the top level.
    Aborted,
    /// Allocation failed even after a collection: the process must stop.
    Fatal,
}

/// The non-recoverable and resource faults an operation can report.
#[derive(Clone, Copy, PartialEq, Eq, Structural, Debug)]
pub enum Fault {
    /// The node pool is exhausted even after a collection.
    OutOfNodes,
    /// The vector pool is exhausted even after compaction.
    OutOfVecCells,
    /// Every port-table slot is in use.
    PortsExhausted,
}

/// A saved return point: pushed by a non-tail application, popped by
/// `return`.
#[derive(Clone, Copy)]
pub struct Frame {
    pub code: Cell,
    pub ip: usize,
    pub env: Cell,
}

/// A saved machine-state snapshot guarding one dynamic extent of `catch`:
/// `throw` with the matching tag restores it.
#[derive(Clone, Copy)]
pub struct CatchFrame {
    pub tag: Cell,
    pub sdep: usize,
    pub rdep: usize,
    pub env: Cell,
    pub code: Cell,
    pub resume: usize,
}

/// One entry of the port table: an open stream seen as an in-memory
/// character buffer.  The host feeds input buffers and drains output
/// buffers at the boundary.
pub struct PortSlot {
    pub used: bool,
    pub locked: bool,
    pub kind: Cell,
    pub buf: Vec<Cell>,
    pub pos: usize,
}

/// The saved return frame `f` references cell `c`.
pub open spec fn frame_refs(f: Frame, c: Cell) -> bool {
    f.code == c || f.env == c
}

/// The saved catch frame `f` references cell `c`.
pub open spec fn cframe_refs(f: CatchFrame, c: Cell) -> bool {
    f.tag == c || f.env == c || f.code == c
}

/// The whole runtime context.
pub struct Machine {
    pub pool: NodePool,
    pub vpool: VecPool,
    pub acc: Cell,
    pub stack: Vec<Cell>,
    pub env: Cell,
    pub code: Cell,
    pub ip: usize,
    pub rstack: Vec<Frame>,
    pub cstack: Vec<CatchFrame>,
    pub symbols: Cell,
    pub glob: Cell,
    pub handlers: Cell,
    pub pinned: Vec<Cell>,
    pub trace: Trace,
    pub ports: Vec<PortSlot>,
    pub port_atoms: Vec<Cell>,
    pub inport: usize,
    pub outport: usize,
    pub errport: usize,
    pub erritem: Cell,
    pub s_errval: Cell,
    pub s_div0: Cell,
    pub s_immut: Cell,
    pub s_type: Cell,
    pub s_arity: Cell,
    pub s_oflow: Cell,
    pub status: Status,
}

impl Machine {
    /// Well-formedness of the context: both pools and the trace ring are
    /// well formed, and the port table has its fixed shape.
    pub open spec fn wf(self) -> bool {
        &&& self.pool.wf()
        &&& self.vpool.wf()
        &&& self.trace.wf()
        &&& self.ports@.len() == NPORTS
        &&& self.port_atoms@.len() == NPORTS
        &&& self.inport < NPORTS
        &&& self.outport < NPORTS
        &&& self.errport < NPORTS
    }

    /// `n` indexes a node-pool slot.
    pub open spec fn in_pool(self, n: Cell) -> bool {
        0 <= n && (n as int) < self.pool.cap()
    }

    /// The tag word of slot `n`.
    pub open spec fn tag_s(self, n: Cell) -> Cell {
        self.pool.tags@[n as int]
    }

    /// The `car` field of slot `n`.
    pub open spec fn car_s(self, n: Cell) -> Cell {
        self.pool.cars@[n as int]
    }

    /// The `cdr` field of slot `n`.
    pub open spec fn cdr_s(self, n: Cell) -> Cell {
        self.pool.cdrs@[n as int]
    }

    /// `n` is an ordinary pair: an in-pool slot with neither the atom nor
    /// the vector bit set.
    pub open spec fn pairp_s(self, n: Cell) -> bool {
        &&& self.in_pool(n)
        &&& !bit_on(self.tag_s(n), ATOM_TAG)
        &&& !bit_on(self.tag_s(n), VECTOR_TAG)
    }

    /// `n` is an atom of type `ty`.
    pub open spec fn atom_typep_s(self, n: Cell, ty: Cell) -> bool {
        &&& self.in_pool(n)
        &&& bit_on(self.tag_s(n), ATOM_TAG)
        &&& self.car_s(n) == ty
    }

    /// `n` is a vector header of type `ty`.
    pub open spec fn vec_typep_s(self, n: Cell, ty: Cell) -> bool {
        &&& self.in_pool(n)
        &&& bit_on(self.tag_s(n), VECTOR_TAG)
        &&& self.car_s(n) == ty
    }

    /// `n` is a fixnum atom; its value sits in the `cdr` field.
    pub open spec fn fixp_s(self, n: Cell) -> bool {
        self.atom_typep_s(n, T_FIXNUM)
    }

    /// `n` is a character atom.
    pub open spec fn charp_s(self, n: Cell) -> bool {
        self.atom_typep_s(n, T_CHAR)
    }

    /// `n` is a closure atom.
    pub open spec fn closurep_s(self, n: Cell) -> bool {
        self.atom_typep_s(n, T_CLOSURE)
    }

    /// `n` is a catch-tag atom.
    pub open spec fn ctagp_s(self, n: Cell) -> bool {
        self.atom_typep_s(n, T_CATCHTAG)
    }

    /// `n` is a string.
    pub open spec fn stringp_s(self, n: Cell) -> bool {
        self.vec_typep_s(n, T_STRING)
    }

    /// `n` is a symbol.
    pub open spec fn symbolp_s(self, n: Cell) -> bool {
        self.vec_typep_s(n, T_SYMBOL)
    }

    /// `n` is an ordinary vector.
    pub open spec fn vectorp_s(self, n: Cell) -> bool {
        self.vec_typep_s(n, T_VECTOR)
    }

    /// `n` is a bytecode object.
    pub open spec fn bytecodep_s(self, n: Cell) -> bool {
        self.vec_typep_s(n, T_BYTECODE)
    }

    /// `n` carries the immutability bit: mutating primitives must reject
    /// it.
    pub open spec fn constp_s(self, n: Cell) -> bool {
        self.in_pool(n) && bit_on(self.tag_s(n), CONST_TAG)
    }

    /// `n` is an open input port atom.
    pub open spec fn inportp_s(self, n: Cell) -> bool {
        self.atom_typep_s(n, T_INPORT) && bit_on(self.tag_s(n), PORT_TAG)
    }

    /// `n` is an open output port atom.
    pub open spec fn outportp_s(self, n: Cell) -> bool {
        self.atom_typep_s(n, T_OUTPORT) && bit_on(self.tag_s(n), PORT_TAG)
    }

    /// `c` is one of the collector's roots: a live VM register, a value on
    /// the value stack, a saved frame field, a catch-frame field, the
    /// symbol table, the global or handler association list, an open port
    /// atom, or a pinned in-flight value.
    pub open spec fn is_root(self, c: Cell) -> bool {
        ||| c == self.acc
        ||| c == self.env
        ||| c == self.code
        ||| c == self.symbols
        ||| c == self.glob
        ||| c == self.handlers
        ||| c == self.s_errval
        ||| c == self.erritem
        ||| self.stack@.contains(c)
        ||| self.pinned@.contains(c)
        ||| self.port_atoms@.contains(c)
        ||| exists|j: int|
            0 <= j < self.rstack@.len() && #[trigger] frame_refs(self.rstack@[j], c)
        ||| exists|j: int|
            0 <= j < self.cstack@.len() && #[trigger] cframe_refs(self.cstack@[j], c)
    }

    /// The two machines hold the same registers, stacks, tables and
    /// ports: only the pools may differ.
    pub open spec fn regs_same(m0: Machine, m1: Machine) -> bool {
        &&& m1.acc == m0.acc
        &&& m1.stack@ == m0.stack@
        &&& m1.env == m0.env
        &&& m1.code == m0.code
        &&& m1.ip == m0.ip
        &&& m1.rstack@ == m0.rstack@
        &&& m1.cstack@ == m0.cstack@
        &&& m1.symbols == m0.symbols
        &&& m1.glob == m0.glob
        &&& m1.handlers == m0.handlers
        &&& m1.pinned@ == m0.pinned@
        &&& m1.trace == m0.trace
        &&& m1.ports@ == m0.ports@
        &&& m1.port_atoms@ == m0.port_atoms@
        &&& m1.inport == m0.inport
        &&& m1.outport == m0.outport
        &&& m1.errport == m0.errport
        &&& m1.erritem == m0.erritem
        &&& m1.s_errval == m0.s_errval
        &&& m1.s_div0 == m0.s_div0
        &&& m1.s_immut == m0.s_immut
        &&& m1.s_type == m0.s_type
        &&& m1.s_arity == m0.s_arity
        &&& m1.s_oflow == m0.s_oflow
        &&& m1.status == m0.status
    }

    /// The VM registers of the two machines agree.
    pub open spec fn vm_regs_same(m0: Machine, m1: Machine) -> bool {
        &&& m1.acc == m0.acc
        &&& m1.stack@ == m0.stack@
        &&& m1.env == m0.env
        &&& m1.code == m0.code
        &&& m1.ip == m0.ip
        &&& m1.rstack@ == m0.rstack@
        &&& m1.cstack@ == m0.cstack@
    }

    /// The symbol table, association lists and pin stack agree.
    pub open spec fn tables_same(m0: Machine, m1: Machine) -> bool {
        &&& m1.symbols == m0.symbols
        &&& m1.glob == m0.glob
        &&& m1.handlers == m0.handlers
        &&& m1.pinned@ == m0.pinned@
        &&& m1.s_errval == m0.s_errval
        &&& m1.s_div0 == m0.s_div0
        &&& m1.s_immut == m0.s_immut
        &&& m1.s_type == m0.s_type
        &&& m1.s_arity == m0.s_arity
        &&& m1.s_oflow == m0.s_oflow
    }

    /// Everything agrees except the error port's buffer, the recorded
    /// offending datum and the run status: the shape of a diagnostic.
    pub open spec fn quiet_except_err(m0: Machine, m1: Machine) -> bool {
        &&& m1.pool == m0.pool
        &&& m1.vpool == m0.vpool
        &&& Machine::vm_regs_same(m0, m1)
        &&& Machine::tables_same(m0, m1)
        &&& m1.trace == m0.trace
        &&& m1.port_atoms@ == m0.port_atoms@
        &&& m1.inport == m0.inport
        &&& m1.outport == m0.outport
        &&& m1.errport == m0.errport
        &&& m1.ports@.len() == m0.ports@.len()
        &&& forall|j: int|
            0 <= j < m0.ports@.len() && j != m0.errport ==> m1.ports@[j] == m0.ports@[j]
        &&& m1.ports@[m0.errport as int].used == m0.ports@[m0.errport as int].used
        &&& m1.ports@[m0.errport as int].locked == m0.ports@[m0.errport as int].locked
        &&& m1.ports@[m0.errport as int].kind == m0.ports@[m0.errport as int].kind
        &&& m1.ports@[m0.errport as int].pos == m0.ports@[m0.errport as int].pos
    }

    /// What a collection cycle guarantees of a rooted in-pool cell: it is
    /// not reclaimed and keeps its fields; its tag word at most loses the
    /// transient mark bit.
    pub open spec fn root_survives(m0: Machine, m1: Machine, x: Cell) -> bool {
        &&& !m1.pool.is_free(x)
        &&& m1.car_s(x) == m0.car_s(x)
        &&& m1.cdr_s(x) == m0.cdr_s(x)
        &&& (m1.tag_s(x) == m0.tag_s(x) || m1.tag_s(x) == (m0.tag_s(x) & !MARK_TAG))
    }

    /// Executable pair test.
    pub fn pairp(&self, n: Cell) -> (r: bool)
        requires
            self.wf(),
        ensures
            r == self.pairp_s(n),
    {
        if n < 0 {
            false
        } else if n >= self.pool.cars.len() as i32 {
            false
        } else {
            let t = self.pool.get_tag(n);
            (t & ATOM_TAG) == 0 && (t & VECTOR_TAG) == 0
        }
    }

    /// Executable typed-atom test.
    pub fn atom_typep(&self, n: Cell, ty: Cell) -> (r: bool)
        requires
            self.wf(),
        ensures
            r == self.atom_typep_s(n, ty),
    {
        if n < 0 {
            false
        } else if n >= self.pool.cars.len() as i32 {
            false
        } else {
            let t = self.pool.get_tag(n);
            (t & ATOM_TAG) != 0 && self.pool.get_car(n) == ty
        }
    }

    /// Executable typed-vector test.
    pub fn vec_typep(&self, n: Cell, ty: Cell) -> (r: bool)
        requires
            self.wf(),
        ensures
            r == self.vec_typep_s(n, ty),
    {
        if n < 0 {
            false
        } else if n >= self.pool.cars.len() as i32 {
            false
        } else {
            let t = self.pool.get_tag(n);
            (t & VECTOR_TAG) != 0 && self.pool.get_car(n) == ty
        }
    }

    /// Executable fixnum test.
    pub fn fixp(&self, n: Cell) -> (r: bool)
        requires
            self.wf(),
        ensures
            r == self.fixp_s(n),
    {
        self.atom_typep(n, T_FIXNUM)
    }

    /// Executable closure test.
    pub fn closurep(&self, n: Cell) -> (r: bool)
        requires
            self.wf(),
        ensures
            r == self.closurep_s(n),
    {
        self.atom_typep(n, T_CLOSURE)
    }

    /// Executable immutability test.
    pub fn constp(&self, n: Cell) -> (r: bool)
        requires
            self.wf(),
        ensures
            r == self.constp_s(n),
    {
        if n < 0 {
            false
        } else if n >= self.pool.cars.len() as i32 {
            false
        } else {
            (self.pool.get_tag(n) & CONST_TAG) != 0
        }
    }

    /// Read the `car` field of an in-pool cell.
    pub fn car_of(&self, n: Cell) -> (r: Cell)
        requires
            self.wf(),
            self.in_pool(n),
        ensures
            r == self.car_s(n),
    {
        self.pool.get_car(n)
    }

    /// Read the `cdr` field of an in-pool cell.
    pub fn cdr_of(&self, n: Cell) -> (r: Cell)
        requires
            self.wf(),
            self.in_pool(n),
        ensures
            r == self.cdr_s(n),
    {
        self.pool.get_cdr(n)
    }

    /// The value of a fixnum atom.
    pub fn fixval(&self, n: Cell) -> (r: Cell)
        requires
            self.wf(),
            self.fixp_s(n),
        ensures
            r == self.cdr_s(n),
    {
        self.pool.get_cdr(n)
    }
}

/// Build a fresh machine: empty pools, cleared registers, the three
/// console ports open and locked in slots 0 (input), 1 (output) and 2
/// (the error port), and the error-value symbol interned with a global
/// binding.
pub fn machine_new() -> (m: Machine)
    ensures
        m.wf(),
        m.status == Status::Running,
        m.acc == NIL,
        m.env == NIL,
        m.code == NIL,
        m.ip == 0,
        m.stack@.len() == 0,
        m.rstack@.len() == 0,
        m.cstack@.len() == 0,
        m.pinned@.len() == 0,
        m.inport == 0,
        m.outport == 1,
        m.errport == 2,
        m.ports@[0].used && m.ports@[0].locked && m.ports@[0].kind == T_INPORT,
        m.ports@[1].used && m.ports@[1].locked && m.ports@[1].kind == T_OUTPORT,
        m.ports@[2].used && m.ports@[2].locked && m.ports@[2].kind == T_OUTPORT,
        m.ports@[0].buf@.len() == 0 && m.ports@[0].pos == 0,
        m.ports@[1].buf@.len() == 0,
        m.ports@[2].buf@.len() == 0,
        m.pool.free@.len() > 256,
        m.vpool.freetop <= 64,
        m.vpool.cells@.len() >= 262144,
        m.symbolp_s(m.s_errval),
        m.binding_box(m.s_errval) != NIL,
        m.car_s(m.binding_box(m.s_errval)) == NIL,
        crate::gc::heap_unmarked(m),
{
    let pool = alloc_nodepool();
    let vpool = alloc_vecpool();
    let trace = alloc_tracevec();
    let mut ports: Vec<PortSlot> = Vec::new();
    let mut port_atoms: Vec<Cell> = Vec::new();
    let mut i: usize = 0;
    while i < NPORTS
        invariant
            i <= NPORTS,
            ports@.len() == i,
            port_atoms@.len() == i,
        decreases NPORTS - i,
    {
        ports.push(PortSlot { used: false, locked: false, kind: NIL, buf: Vec::new(), pos: 0 });
        port_atoms.push(NIL);
        i = i + 1;
    }
    ports[0] = PortSlot { used: true, locked: true, kind: T_INPORT, buf: Vec::new(), pos: 0 };
    ports[1] = PortSlot { used: true, locked: true, kind: T_OUTPORT, buf: Vec::new(), pos: 0 };
    ports[2] = PortSlot { used: true, locked: true, kind: T_OUTPORT, buf: Vec::new(), pos: 0 };
    let mut m = Machine {
        pool,
        vpool,
        acc: NIL,
        stack: Vec::new(),
        env: NIL,
        code: NIL,
        ip: 0,
        rstack: Vec::new(),
        cstack: Vec::new(),
        symbols: NIL,
        glob: NIL,
        handlers: NIL,
        pinned: Vec::new(),
        trace,
        ports,
        port_atoms,
        inport: 0,
        outport: 1,
        errport: 2,
        erritem: UNDEF,
        s_errval: NIL,
        s_div0: NIL,
        s_immut: NIL,
        s_type: NIL,
        s_arity: NIL,
        s_oflow: NIL,
        status: Status::Running,
    };
    // The three console port atoms, locked against close-all.
    let ptag = ATOM_TAG | PORT_TAG | USED_TAG | LOCK_TAG;
    let a0 = m.pool.alloc_node(T_INPORT, 0, ptag);
    let a1 = m.pool.alloc_node(T_OUTPORT, 1, ptag);
    let a2 = m.pool.alloc_node(T_OUTPORT, 2, ptag);
    m.port_atoms[0] = a0;
    m.port_atoms[1] = a1;
    m.port_atoms[2] = a2;
    proof {
        lemma_tag_constants();
        assert forall|i: int| 0 <= i < m.pool.cap()
            implies !bit_on(#[trigger] m.pool.tags@[i], MARK_TAG) by {}
        assert(crate::gc::heap_unmarked(m));
    }
    // The error tags the primitives raise.
    let nm = chars_div0();
    m.s_div0 = match m.intern(&nm) {
        Ok(c) => c,
        Err(_) => NIL,
    };
    let nm = chars_immutable();
    m.s_immut = match m.intern(&nm) {
        Ok(c) => c,
        Err(_) => NIL,
    };
    let nm = chars_type();
    m.s_type = match m.intern(&nm) {
        Ok(c) => c,
        Err(_) => NIL,
    };
    let nm = chars_arity();
    m.s_arity = match m.intern(&nm) {
        Ok(c) => c,
        Err(_) => NIL,
    };
    let nm = chars_overflow();
    m.s_oflow = match m.intern(&nm) {
        Ok(c) => c,
        Err(_) => NIL,
    };
    // The error-value variable: a fresh symbol, put on the symbol table
    // and globally bound to NIL so the error machinery can rebind it.
    let nm = chars_errval();
    let sym = match m.vec_filled(T_SYMBOL, &nm) {
        Ok(c) => c,
        Err(_) => NIL,
    };
    m.s_errval = sym;
    let ghost ma = m;
    let sy = m.symbols;
    let link = match m.cons3(sym, sy, 0) {
        Ok(c) => c,
        Err(_) => NIL,
    };
    m.symbols = link;
    proof {
        assert forall|y: Cell|
            0 <= y < ma.pool.cap() && !ma.pool.is_free(y)
            implies m.car_s(y) == ma.car_s(y) && m.cdr_s(y) == ma.cdr_s(y)
                && m.tag_s(y) == ma.tag_s(y) && !m.pool.is_free(y) by {
            crate::pool::lemma_alloc_preserves_live(ma.pool, m.pool, link, sym, sy, 0, y);
        }
        assert(m.symbolp_s(m.s_errval));
    }
    let ghost mb = m;
    let sv = m.s_errval;
    let _ = m.defglob(sv, NIL);
    proof {
        lemma_tag_constants();
        assert(m.symbolp_s(m.s_errval)) by {
            assert(!mb.pool.is_free(sym));
            assert(m.cdr_s(sym) == mb.cdr_s(sym));
            assert(m.tag_s(sym) == mb.tag_s(sym) && m.car_s(sym) == mb.car_s(sym));
        }
    }
    m
}

/// The print name of the error-value variable.
fn chars_errval() -> (r: Vec<Cell>)
    ensures
        r@.len() == 6,
{
    let mut r: Vec<Cell> = Vec::new();
    r.push(101);
    r.push(114);
    r.push(114);
    r.push(118);
    r.push(97);
    r.push(108);
    r
}

/// The print name of the division-by-zero error tag.
fn chars_div0() -> (r: Vec<Cell>)
    ensures
        r@.len() == 4,
{
    let mut r: Vec<Cell> = Vec::new();
    r.push(100);
    r.push(105);
    r.push(118);
    r.push(48);
    r
}

/// The print name of the immutable-violation error tag.
fn chars_immutable() -> (r: Vec<Cell>)
    ensures
        r@.len() == 9,
{
    let mut r: Vec<Cell> = Vec::new();
    r.push(105);
    r.push(109);
    r.push(109);
    r.push(117);
    r.push(116);
    r.push(97);
    r.push(98);
    r.push(108);
    r.push(101);
    r
}

/// The print name of the type-error tag.
fn chars_type() -> (r: Vec<Cell>)
    ensures
        r@.len() == 4,
{
    let mut r: Vec<Cell> = Vec::new();
    r.push(116);
    r.push(121);
    r.push(112);
    r.push(101);
    r
}

/// The print name of the arity-error tag.
fn chars_arity() -> (r: Vec<Cell>)
    ensures
        r@.len() == 5,
{
    let mut r: Vec<Cell> = Vec::new();
    r.push(97);
    r.push(114);
    r.push(105);
    r.push(116);
    r.push(121);
    r
}

/// The print name of the arithmetic-overflow error tag.
fn chars_overflow() -> (r: Vec<Cell>)
    ensures
        r@.len() == 8,
{
    let mut r: Vec<Cell> = Vec::new();
    r.push(111);
    r.push(118);
    r.push(101);
    r.push(114);
    r.push(102);
    r.push(108);
    r.push(111);
    r.push(119);
    r
}

/// A root of `m0` is still a root of `m1` when every register agrees and
/// the pin stack has only grown.
pub proof fn lemma_root_transfer(m0: Machine, m1: Machine, x: Cell)
    requires
        m0.is_root(x),
        m1.acc == m0.acc,
        m1.env == m0.env,
        m1.code == m0.code,
        m1.symbols == m0.symbols,
        m1.glob == m0.glob,
        m1.handlers == m0.handlers,
        m1.s_errval == m0.s_errval,
        m1.erritem == m0.erritem,
        m1.stack@ == m0.stack@,
        m1.rstack@ == m0.rstack@,
        m1.cstack@ == m0.cstack@,
        m1.port_atoms@ == m0.port_atoms@,
        forall|c: Cell| m0.pinned@.contains(c) ==> #[trigger] m1.pinned@.contains(c),
    ensures
        m1.is_root(x),
{
    if m0.stack@.contains(x) {
        let j = choose|j: int| 0 <= j < m0.stack@.len() && m0.stack@[j] == x;
        assert(m1.stack@[j] == x);
        assert(m1.stack@.contains(x));
    } else if m0.pinned@.contains(x) {
        assert(m1.pinned@.contains(x));
    } else if m0.port_atoms@.contains(x) {
        let j = choose|j: int| 0 <= j < m0.port_atoms@.len() && m0.port_atoms@[j] == x;
        assert(m1.port_atoms@[j] == x);
        assert(m1.port_atoms@.contains(x));
    } else if exists|j: int|
        0 <= j < m0.rstack@.len() && #[trigger] frame_refs(m0.rstack@[j], x) {
        let j = choose|j: int|
            0 <= j < m0.rstack@.len() && #[trigger] frame_refs(m0.rstack@[j], x);
        assert(m1.rstack@[j] == m0.rstack@[j]);
        assert(0 <= j < m1.rstack@.len() && frame_refs(m1.rstack@[j], x));
    } else if exists|j: int|
        0 <= j < m0.cstack@.len() && #[trigger] cframe_refs(m0.cstack@[j], x) {
        let j = choose|j: int|
            0 <= j < m0.cstack@.len() && #[trigger] cframe_refs(m0.cstack@[j], x);
        assert(m1.cstack@[j] == m0.cstack@[j]);
        assert(0 <= j < m1.cstack@.len() && cframe_refs(m1.cstack@[j], x));
    }
}

/// The characters of the diagnostic for node-pool exhaustion.
fn oom_nodes_msg() -> (r: Vec<Cell>)
    ensures
        r@.len() > 0,
{
    let mut r: Vec<Cell> = Vec::new();
    r.push(110);
    r.push(111);
    r.push(100);
    r.push(101);
    r.push(115);
    r
}

/// The characters of the diagnostic for vector-pool exhaustion.
fn oom_vecs_msg() -> (r: Vec<Cell>)
    ensures
        r@.len() > 0,
{
    let mut r: Vec<Cell> = Vec::new();
    r.push(118);
    r.push(101);
    r.push(99);
    r.push(115);
    r
}

impl Machine {
    /// Allocate one node with the given `car`, `cdr` and tag word: the
    /// next free slot, or — when the free list is exhausted — the slot a
    /// collection cycle recovers.  A second exhaustion right after the
    /// collection is the fatal out-of-memory condition.  When the free
    /// list is not empty the allocation is exactly a draw from it; in
    /// every successful case the new cell carries the requested fields
    /// and every rooted live cell survives untouched.
    pub fn cons3(&mut self, a: Cell, d: Cell, t: Cell) -> (r: Result<Cell, Fault>)
        requires
            old(self).wf(),
        ensures
            final(self).wf(),
            final(self).pool.cap() == old(self).pool.cap(),
            final(self).vpool == old(self).vpool,
            Machine::vm_regs_same(*old(self), *final(self)),
            Machine::tables_same(*old(self), *final(self)),
            final(self).trace == old(self).trace,
            final(self).port_atoms@ == old(self).port_atoms@,
            final(self).inport == old(self).inport,
            final(self).outport == old(self).outport,
            final(self).errport == old(self).errport,
            match r {
                Ok(c) => {
                    &&& final(self).in_pool(c)
                    &&& final(self).car_s(c) == a
                    &&& final(self).cdr_s(c) == d
                    &&& final(self).tag_s(c) == t
                    &&& !final(self).pool.is_free(c)
                    &&& final(self).status == old(self).status
                    &&& final(self).ports@ == old(self).ports@
                    &&& final(self).erritem == old(self).erritem
                    &&& final(self).vpool == old(self).vpool
                    &&& forall|x: Cell|
                        #[trigger] old(self).is_root(x) && old(self).in_pool(x)
                            && !old(self).pool.is_free(x)
                            ==> c != x && Machine::root_survives(*old(self), *final(self), x)
                },
                Err(f) => {
                    &&& f == Fault::OutOfNodes
                    &&& final(self).status == Status::Fatal
                    &&& final(self).pool.free@.len() == 0
                    &&& forall|x: Cell|
                        #[trigger] old(self).is_root(x) && old(self).in_pool(x)
                            && !old(self).pool.is_free(x)
                            ==> Machine::root_survives(*old(self), *final(self), x)
                },
            },
            old(self).pool.free@.len() > 0 ==> r is Ok && NodePool::alloc_post(
                old(self).pool, final(self).pool, r->Ok_0, a, d, t),
            (crate::gc::heap_unmarked(*old(self)) && !bit_on(t, MARK_TAG))
                ==> crate::gc::heap_unmarked(*final(self)),
    {
        if self.pool.free_count() == 0 {
            self.gc();
            if self.pool.free_count() == 0 {
                let msg = oom_nodes_msg();
                self.fatal(&msg);
                return Err(Fault::OutOfNodes);
            }
            let ghost mid = *self;
            let c = self.pool.alloc_node(a, d, t);
            proof {
                assert forall|x: Cell|
                    #[trigger] old(self).is_root(x) && old(self).in_pool(x)
                        && !old(self).pool.is_free(x)
                    implies c != x && Machine::root_survives(*old(self), *final(self), x) by {
                    crate::pool::lemma_alloc_preserves_live(mid.pool, self.pool, c, a, d, t, x);
                }
            }
            Ok(c)
        } else {
            let ghost pre = *self;
            let c = self.pool.alloc_node(a, d, t);
            proof {
                assert forall|x: Cell|
                    #[trigger] old(self).is_root(x) && old(self).in_pool(x)
                        && !old(self).pool.is_free(x)
                    implies c != x && Machine::root_survives(*old(self), *final(self), x) by {
                    crate::pool::lemma_alloc_preserves_live(pre.pool, self.pool, c, a, d, t, x);
                }
            }
            Ok(c)
        }
    }

    /// What every rooted live cell of `m0` is still owed after an
    /// operation that may run a compacting collection: it survives with
    /// `car` and tag intact (up to the mark bit), and its `cdr` intact
    /// unless it is a vector header, whose backing region may have moved.
    pub open spec fn root_survives_v(m0: Machine, m1: Machine, x: Cell) -> bool {
        &&& !m1.pool.is_free(x)
        &&& m1.car_s(x) == m0.car_s(x)
        &&& (m1.tag_s(x) == m0.tag_s(x) || m1.tag_s(x) == (m0.tag_s(x) & !MARK_TAG))
        &&& ((m0.cdr_s(x) < 0 || !bit_on(m0.tag_s(x), VECTOR_TAG)) ==> m1.cdr_s(x)
            == m0.cdr_s(x))
    }

    /// Reserve a backing region of `k` cells in the vector pool, link it
    /// to a fresh atom of type `ty`, and fill the payload.  When no
    /// contiguous free region is large enough, the collector's compacting
    /// cycle runs before a second and final attempt; a second failure is
    /// the fatal out-of-memory condition.  On success the atom's `cdr`
    /// holds the payload offset, the region's two header cells hold the
    /// owner link and the length, and every rooted live cell survives.
    pub fn alloc_vector(&mut self, ty: Cell, k: usize, fill: Cell) -> (r: Result<Cell, Fault>)
        requires
            old(self).wf(),
            k <= 0x3ffffffd,
        ensures
            final(self).wf(),
            final(self).pool.cap() == old(self).pool.cap(),
            final(self).vpool.cells@.len() == old(self).vpool.cells@.len(),
            Machine::vm_regs_same(*old(self), *final(self)),
            Machine::tables_same(*old(self), *final(self)),
            final(self).trace == old(self).trace,
            final(self).port_atoms@ == old(self).port_atoms@,
            final(self).inport == old(self).inport,
            final(self).outport == old(self).outport,
            final(self).errport == old(self).errport,
            match r {
                Ok(s) => {
                    &&& final(self).vec_typep_s(s, ty)
                    &&& !final(self).pool.is_free(s)
                    &&& final(self).status == old(self).status
                    &&& final(self).ports@ == old(self).ports@
                    &&& final(self).erritem == old(self).erritem
                    &&& ({
                        let o = final(self).cdr_s(s) as int;
                        &&& o >= 2
                        &&& o + k <= final(self).vpool.cells@.len()
                        &&& final(self).vpool.freetop == o + k
                        &&& final(self).vpool.cells@[o - 2] == s
                        &&& final(self).vpool.cells@[o - 1] == k as i32
                        &&& forall|i: int|
                            o <= i < o + k ==> final(self).vpool.cells@[i] == fill
                    })
                    &&& forall|x: Cell|
                        #[trigger] old(self).is_root(x) && old(self).in_pool(x)
                            && !old(self).pool.is_free(x)
                            ==> s != x && Machine::root_survives_v(*old(self), *final(self), x)
                },
                Err(f) => {
                    &&& (f == Fault::OutOfNodes || f == Fault::OutOfVecCells)
                    &&& final(self).status == Status::Fatal
                },
            },
            (old(self).pool.free@.len() > 0 && k + VEC_HEADER <= old(self).vpool.cells@.len()
                - old(self).vpool.freetop) ==> r is Ok && final(self).pool.free@.len()
                == old(self).pool.free@.len() - 1 && final(self).vpool.freetop
                == old(self).vpool.freetop + VEC_HEADER + k,
            crate::gc::heap_unmarked(*old(self)) ==> crate::gc::heap_unmarked(*final(self)),
    {
        proof {
            lemma_tag_constants();
            lemma_mark_ops(VECTOR_TAG);
        }
        if self.pool.free_count() == 0 {
            self.gc();
            if self.pool.free_count() == 0 {
                let msg = oom_nodes_msg();
                self.fatal(&msg);
                return Err(Fault::OutOfNodes);
            }
        }
        proof {
            assert forall|x: Cell|
                #[trigger] old(self).is_root(x) && old(self).in_pool(x)
                    && !old(self).pool.is_free(x)
                implies !self.pool.is_free(x) && self.car_s(x) == old(self).car_s(x)
                    && self.cdr_s(x) == old(self).cdr_s(x)
                    && (self.tag_s(x) == old(self).tag_s(x)
                        || self.tag_s(x) == (old(self).tag_s(x) & !MARK_TAG)) by {}
        }
        let ghost m1 = *self;
        let s = self.pool.alloc_node(ty, NIL, VECTOR_TAG);
        proof {
            assert forall|x: Cell|
                #[trigger] old(self).is_root(x) && old(self).in_pool(x)
                    && !old(self).pool.is_free(x)
                implies s != x && !self.pool.is_free(x)
                    && self.car_s(x) == old(self).car_s(x)
                    && self.cdr_s(x) == old(self).cdr_s(x)
                    && (self.tag_s(x) == old(self).tag_s(x)
                        || self.tag_s(x) == (old(self).tag_s(x) & !MARK_TAG)) by {
                crate::pool::lemma_alloc_preserves_live(m1.pool, self.pool, s, ty, NIL,
                    VECTOR_TAG, x);
            }
        }
        let ghost m2 = *self;
        self.pinned.push(s);
        proof {
            crate::gc::lemma_contains_after_push(m2.pinned@, s);
            assert(self.pinned@ == m2.pinned@.push(s));
            assert forall|x: Cell| #[trigger] m2.is_root(x) implies self.is_root(x) by {
                if m2.pinned@.contains(x) {
                    assert(m2.pinned@.push(s).contains(x));
                }
                lemma_root_transfer(m2, *self, x);
            }
            assert(m2.pinned@.push(s).contains(s));
            assert(self.is_root(s));
        }
        let ghost m3 = *self;
        if !self.vpool.has_room(k) {
            self.gcv();
            proof {
                assert(Machine::root_survives_v(m3, *self, s));
                assert(self.car_s(s) == ty && self.cdr_s(s) == NIL);
                assert(self.tag_s(s) == VECTOR_TAG || self.tag_s(s) == (VECTOR_TAG
                    & !MARK_TAG));
                assert(self.tag_s(s) == VECTOR_TAG);
                assert forall|x: Cell|
                    #[trigger] old(self).is_root(x) && old(self).in_pool(x)
                        && !old(self).pool.is_free(x)
                    implies s != x && !self.pool.is_free(x)
                        && self.car_s(x) == old(self).car_s(x)
                        && (self.tag_s(x) == old(self).tag_s(x)
                            || self.tag_s(x) == (old(self).tag_s(x) & !MARK_TAG))
                        && ((old(self).cdr_s(x) < 0 || !bit_on(old(self).tag_s(x),
                            VECTOR_TAG)) ==> self.cdr_s(x) == old(self).cdr_s(x)) by {
                    assert(m3.pinned@ == m2.pinned@.push(s));
                    assert forall|c: Cell| old(self).pinned@.contains(c)
                        implies #[trigger] m3.pinned@.contains(c) by {
                        assert(m2.pinned@.contains(c));
                        assert(m2.pinned@.push(s).contains(c));
                    }
                    lemma_root_transfer(*old(self), m3, x);
                    assert(m3.is_root(x));
                    assert(m3.in_pool(x));
                    lemma_mark_ops(old(self).tag_s(x));
                    lemma_mark_ops(m3.tag_s(x));
                }
            }
            if !self.vpool.has_room(k) {
                self.pinned.pop();
                proof {
                    assert(self.pinned@ =~= old(self).pinned@);
                }
                let msg = oom_vecs_msg();
                self.fatal(&msg);
                return Err(Fault::OutOfVecCells);
            }
        }
        let ghost m4 = *self;
        let o = self.vpool.alloc_region(s, k, fill);
        self.pool.set_cdr(s, o as i32);
        self.pinned.pop();
        proof {
            assert(self.pinned@ =~= old(self).pinned@);
            assert(self.cdr_s(s) == o as i32);
            assert forall|x: Cell|
                #[trigger] old(self).is_root(x) && old(self).in_pool(x)
                    && !old(self).pool.is_free(x)
                implies s != x && Machine::root_survives_v(*old(self), *self, x) by {
                assert(self.cdr_s(x) == m4.cdr_s(x) || x == s);
            }
        }
        Ok(s)
    }

    /// The payload length recorded in the header of the region backing
    /// the vector-tagged atom `s`, or `-1` when `s` is no vector atom or
    /// its link points outside the pool.  Length primitives read this
    /// header rather than rescanning the payload.
    pub open spec fn strlen_s(self, s: Cell) -> int {
        if self.in_pool(s) && bit_on(self.tag_s(s), VECTOR_TAG) && VEC_HEADER <= self.cdr_s(s)
            && self.cdr_s(s) <= self.vpool.cells@.len() {
            self.vpool.cells@[self.cdr_s(s) - 1] as int
        } else {
            -1
        }
    }

    /// Read the length header of the string, symbol, vector or bytecode
    /// atom `s`; `-1` for anything else.
    pub fn strlen(&self, s: Cell) -> (r: i32)
        requires
            self.wf(),
        ensures
            r as int == self.strlen_s(s),
    {
        if s < 0 || s >= self.pool.cars.len() as i32 {
            return -1;
        }
        let t = self.pool.get_tag(s);
        if (t & VECTOR_TAG) == 0 {
            return -1;
        }
        let o = self.pool.get_cdr(s);
        if o < VEC_HEADER as i32 || (o as usize) > self.vpool.cells.len() {
            return -1;
        }
        self.vpool.get_cell((o as usize) - 1)
    }

    /// The payload of the region backing the vector-tagged atom `s`.
    pub open spec fn vec_contents(self, s: Cell) -> Seq<Cell> {
        self.vpool.cells@.subrange(self.cdr_s(s) as int, self.cdr_s(s) + self.strlen_s(s))
    }

    /// Build a vector-class atom of type `ty` whose backing region holds
    /// exactly the given cells, in order: the shared body of the string,
    /// symbol and vector constructors.
    pub fn vec_filled(&mut self, ty: Cell, chars: &Vec<Cell>) -> (r: Result<Cell, Fault>)
        requires
            old(self).wf(),
            chars@.len() <= 0x3ffffffd,
        ensures
            final(self).wf(),
            final(self).pool.cap() == old(self).pool.cap(),
            final(self).vpool.cells@.len() == old(self).vpool.cells@.len(),
            Machine::vm_regs_same(*old(self), *final(self)),
            Machine::tables_same(*old(self), *final(self)),
            final(self).trace == old(self).trace,
            final(self).port_atoms@ == old(self).port_atoms@,
            final(self).inport == old(self).inport,
            final(self).outport == old(self).outport,
            final(self).errport == old(self).errport,
            match r {
                Ok(s) => {
                    &&& final(self).vec_typep_s(s, ty)
                    &&& !final(self).pool.is_free(s)
                    &&& final(self).status == old(self).status
                    &&& final(self).ports@ == old(self).ports@
                    &&& final(self).strlen_s(s) == chars@.len()
                    &&& final(self).vec_contents(s) == chars@
                    &&& VEC_HEADER <= final(self).cdr_s(s)
                    &&& final(self).cdr_s(s) + chars@.len() <= final(self).vpool.cells@.len()
                    &&& forall|x: Cell|
                        #[trigger] old(self).is_root(x) && old(self).in_pool(x)
                            && !old(self).pool.is_free(x)
                            ==> s != x && Machine::root_survives_v(*old(self), *final(self), x)
                },
                Err(f) => {
                    &&& (f == Fault::OutOfNodes || f == Fault::OutOfVecCells)
                    &&& final(self).status == Status::Fatal
                },
            },
            (old(self).pool.free@.len() > 0 && chars@.len() + VEC_HEADER
                <= old(self).vpool.cells@.len() - old(self).vpool.freetop) ==> r is Ok
                && final(self).pool.free@.len() == old(self).pool.free@.len() - 1
                && final(self).vpool.freetop == old(self).vpool.freetop + VEC_HEADER
                    + chars@.len(),
            crate::gc::heap_unmarked(*old(self)) ==> crate::gc::heap_unmarked(*final(self)),
    {
        let n = chars.len();
        let s = match self.alloc_vector(ty, n, 0) {
            Ok(s) => s,
            Err(f) => {
                return Err(f);
            },
        };
        let ghost ma = *self;
        let o = self.cdr_of(s) as usize;
        let mut i: usize = 0;
        while i < n
            invariant
                ma.wf(),
                self.pool == ma.pool,
                self.vpool.cells@.len() == ma.vpool.cells@.len(),
                self.vpool.freetop == ma.vpool.freetop,
                Machine::vm_regs_same(ma, *self),
                Machine::tables_same(ma, *self),
                self.trace == ma.trace,
                self.ports@ == ma.ports@,
                self.port_atoms@ == ma.port_atoms@,
                self.inport == ma.inport,
                self.outport == ma.outport,
                self.errport == ma.errport,
                self.erritem == ma.erritem,
                self.status == ma.status,
                self.s_errval == ma.s_errval,
                i <= n,
                n == chars@.len(),
                o == ma.cdr_s(s),
                o >= 2,
                o + n <= self.vpool.cells@.len(),
                self.vpool.cells@.len() <= 0x40000000,
                forall|j: int| o <= j < o + i ==> self.vpool.cells@[j] == chars@[j - o],
                forall|j: int|
                    0 <= j < self.vpool.cells@.len() && !(o <= j < o + i)
                        ==> self.vpool.cells@[j] == ma.vpool.cells@[j],
            decreases n - i,
        {
            let idx = o + i;
            self.vpool.set_cell(idx, chars[i]);
            i = i + 1;
        }
        proof {
            assert(self.strlen_s(s) == chars@.len());
            assert(self.vec_contents(s) =~= chars@);
        }
        Ok(s)
    }

    /// Build a string: a fresh `T_STRING` atom whose backing region holds
    /// exactly the given character cells, in order.
    pub fn mkstr(&mut self, chars: &Vec<Cell>) -> (r: Result<Cell, Fault>)
        requires
            old(self).wf(),
            chars@.len() <= 0x3ffffffd,
        ensures
            final(self).wf(),
            final(self).pool.cap() == old(self).pool.cap(),
            final(self).vpool.cells@.len() == old(self).vpool.cells@.len(),
            Machine::vm_regs_same(*old(self), *final(self)),
            Machine::tables_same(*old(self), *final(self)),
            final(self).trace == old(self).trace,
            final(self).port_atoms@ == old(self).port_atoms@,
            final(self).inport == old(self).inport,
            final(self).outport == old(self).outport,
            final(self).errport == old(self).errport,
            match r {
                Ok(s) => {
                    &&& final(self).stringp_s(s)
                    &&& !final(self).pool.is_free(s)
                    &&& final(self).status == old(self).status
                    &&& final(self).ports@ == old(self).ports@
                    &&& final(self).strlen_s(s) == chars@.len()
                    &&& final(self).vec_contents(s) == chars@
                    &&& VEC_HEADER <= final(self).cdr_s(s)
                    &&& final(self).cdr_s(s) + chars@.len() <= final(self).vpool.cells@.len()
                    &&& forall|x: Cell|
                        #[trigger] old(self).is_root(x) && old(self).in_pool(x)
                            && !old(self).pool.is_free(x)
                            ==> s != x && Machine::root_survives_v(*old(self), *final(self), x)
                },
                Err(f) => {
                    &&& (f == Fault::OutOfNodes || f == Fault::OutOfVecCells)
                    &&& final(self).status == Status::Fatal
                },
            },
            (old(self).pool.free@.len() > 0 && chars@.len() + VEC_HEADER
                <= old(self).vpool.cells@.len() - old(self).vpool.freetop) ==> r is Ok
                && final(self).pool.free@.len() == old(self).pool.free@.len() - 1
                && final(self).vpool.freetop == old(self).vpool.freetop + VEC_HEADER
                    + chars@.len(),
            crate::gc::heap_unmarked(*old(self)) ==> crate::gc::heap_unmarked(*final(self)),
    {
        self.vec_filled(T_STRING, chars)
    }
}

} // verus!
