//! The bytecode virtual machine: the dispatch loop over a code object
//! held in the vector pool, with an accumulator, a value stack, an
//! environment chain of argument lists, a return stack for non-tail
//! application, and the catch-frame control stack.  A code object's
//! payload is its literal section (a count followed by the literal
//! cells, which the collector traverses) followed by the instruction
//! words.  Tail application replaces the registers in place and never
//! grows the return stack; primitives validate their operands and raise
//! tagged errors through the handler mechanism instead of performing
//! unchecked access.

use vstd::prelude::*;
use crate::cell::Cell;
use crate::cell::lemma_tag_constants;
use crate::cell::NIL;
use crate::cell::TRUE;
use crate::cell::UNDEF;
use crate::cell::ATOM_TAG;
use crate::cell::VECTOR_TAG;
use crate::cell::T_BYTECODE;
use crate::cell::T_CLOSURE;
use crate::cell::T_FIXNUM;
use crate::machine::Machine;
use crate::machine::Frame;
use crate::machine::CatchFrame;
use crate::machine::Fault;
use crate::machine::Status;
use crate::vecpool::VEC_HEADER;
use crate::error::find_catch;

verus! {

/// Stop the dispatch loop; the result is in the accumulator.
pub const OP_HALT: i32 = 1;
/// Load a literal (operand: literal index) into the accumulator.
pub const OP_QUOTE: i32 = 2;
/// Push the accumulator onto the value stack.
pub const OP_PUSH: i32 = 3;
/// Pop the value stack into the accumulator.
pub const OP_POP: i32 = 4;
/// Unconditional jump (operand: instruction address).
pub const OP_JMP: i32 = 5;
/// Jump (operand: instruction address) when the accumulator is `NIL`.
pub const OP_BRF: i32 = 6;
/// Load argument n (operand) of the current frame into the accumulator.
pub const OP_ARG: i32 = 7;
/// Build a closure over a code literal (operand) and the current
/// environment.
pub const OP_CLOSURE: i32 = 8;
/// Apply the closure in the accumulator to n (operand) stacked
/// arguments, pushing a return frame.
pub const OP_APPLY: i32 = 9;
/// Tail-apply: as `OP_APPLY`, but by register replacement, without
/// growing the return stack.
pub const OP_TAILAPP: i32 = 10;
/// Return to the frame on top of the return stack, or stop when there
/// is none.
pub const OP_RETURN: i32 = 11;
/// Open a `catch` extent: save a snapshot guarded by the tag in the
/// accumulator; the operand is the resume address past the extent.
pub const OP_CATCHSTAR: i32 = 12;
/// Close the innermost `catch` extent on normal completion.
pub const OP_UNCATCH: i32 = 13;
/// Throw the accumulator to the stacked tag's innermost `catch`.
pub const OP_THROWSTAR: i32 = 14;
/// Cons the stacked `car` onto the accumulator.
pub const OP_CONS: i32 = 15;
/// Take the `car` of the pair in the accumulator.
pub const OP_CAR: i32 = 16;
/// Take the `cdr` of the pair in the accumulator.
pub const OP_CDR: i32 = 17;
/// Store the accumulator in the stacked pair's `car`.
pub const OP_SETCAR: i32 = 18;
/// Store the accumulator in the stacked pair's `cdr`.
pub const OP_SETCDR: i32 = 19;
/// Fixnum addition of the stacked operand and the accumulator.
pub const OP_PLUS: i32 = 20;
/// Fixnum subtraction: stacked operand minus accumulator.
pub const OP_MINUS: i32 = 21;
/// Truncating fixnum division: stacked operand over accumulator.
pub const OP_DIV: i32 = 22;
/// Identity comparison of the stacked operand and the accumulator.
pub const OP_EQ: i32 = 23;
/// Numeric comparison of the stacked fixnum and the accumulator.
pub const OP_NUMEQ: i32 = 24;

/// The characters of the diagnostic attached to a raised error.
fn msg_err() -> (r: Vec<Cell>)
    ensures
        r@.len() > 0,
{
    let mut r: Vec<Cell> = Vec::new();
    r.push(101);
    r.push(114);
    r.push(114);
    r
}

/// The characters of the diagnostic for an ill-formed code object.
fn msg_ill() -> (r: Vec<Cell>)
    ensures
        r@.len() > 0,
{
    let mut r: Vec<Cell> = Vec::new();
    r.push(105);
    r.push(108);
    r.push(108);
    r
}

impl Machine {
    /// The payload offset of the current code object's backing region.
    pub open spec fn code_base(self) -> int {
        self.cdr_s(self.code) as int
    }

    /// The payload length of the current code object.
    pub open spec fn code_k(self) -> int {
        self.vpool.cells@[self.code_base() - 1] as int
    }

    /// The number of literals at the head of the current code object.
    pub open spec fn code_nlits(self) -> int {
        self.vpool.cells@[self.code_base()] as int
    }

    /// The current code object is a well-placed bytecode vector: its
    /// region lies in the pool and its literal count fits the payload.
    pub open spec fn code_ok(self) -> bool {
        &&& self.bytecodep_s(self.code)
        &&& VEC_HEADER <= self.code_base()
        &&& self.code_base() + self.code_k() <= self.vpool.cells@.len()
        &&& 1 <= self.code_k()
        &&& 0 <= self.code_nlits() <= self.code_k() - 1
    }

    /// `n` more instruction words are available at the program pointer.
    pub open spec fn instr_avail(self, n: int) -> bool {
        self.code_ok() && 1 + self.code_nlits() + self.ip + n <= self.code_k()
    }

    /// The instruction word at position `i` of the instruction section.
    pub open spec fn instr_at(self, i: int) -> Cell {
        self.vpool.cells@[self.code_base() + 1 + self.code_nlits() + i]
    }

    /// The opcode at the program pointer.
    pub open spec fn cur_op(self) -> Cell {
        self.instr_at(self.ip as int)
    }

    /// Check that the current code object is well formed and has `n`
    /// instruction words left at the program pointer.
    pub fn code_check(&self, n: usize) -> (r: bool)
        requires
            self.wf(),
            n <= 4,
        ensures
            r == self.instr_avail(n as int),
    {
        if self.code < 0 || self.code >= self.pool.cars.len() as i32 {
            return false;
        }
        let t = self.pool.get_tag(self.code);
        if (t & VECTOR_TAG) == 0 {
            return false;
        }
        if self.pool.get_car(self.code) != T_BYTECODE {
            return false;
        }
        let o = self.pool.get_cdr(self.code);
        if o < VEC_HEADER as i32 {
            return false;
        }
        let ou = o as usize;
        if ou > self.vpool.cells.len() {
            return false;
        }
        let k = self.vpool.get_cell(ou - 1);
        if k < 1 {
            return false;
        }
        let ku = k as usize;
        if ku > self.vpool.cells.len() - ou {
            return false;
        }
        let nl = self.vpool.get_cell(ou);
        if nl < 0 {
            return false;
        }
        let nlu = nl as usize;
        if nlu > ku - 1 {
            return false;
        }
        if self.ip > ku {
            return false;
        }
        1 + nlu + self.ip + n <= ku
    }

    /// Read the instruction word `off` places past the program pointer.
    pub fn fetch(&self, off: usize) -> (r: Cell)
        requires
            self.wf(),
            self.instr_avail(off as int + 1),
        ensures
            r == self.instr_at(self.ip + off),
    {
        let o = self.pool.get_cdr(self.code) as usize;
        let nl = self.vpool.get_cell(o) as usize;
        self.vpool.get_cell(o + 1 + nl + self.ip + off)
    }

    /// Read literal `li` of the current code object.
    pub fn fetch_lit(&self, li: usize) -> (r: Cell)
        requires
            self.wf(),
            self.code_ok(),
            li < self.code_nlits(),
        ensures
            r == self.vpool.cells@[self.code_base() + 1 + li],
    {
        let o = self.pool.get_cdr(self.code) as usize;
        self.vpool.get_cell(o + 1 + li)
    }

    /// An ill-formed code object or operand: no recovery, report and
    /// abort the evaluation.
    fn ill(&mut self)
        requires
            old(self).wf(),
        ensures
            final(self).wf(),
            Machine::quiet_except_err(*old(self), *final(self)),
            final(self).status == Status::Aborted,
    {
        let m = msg_ill();
        self.report(&m, UNDEF);
        self.status = Status::Aborted;
    }

    /// Raise a recoverable error with the given tag and offending datum
    /// through the handler mechanism.
    fn raise(&mut self, tag: Cell, x: Cell)
        requires
            old(self).wf(),
        ensures
            final(self).wf(),
            final(self).pool.cap() == old(self).pool.cap(),
            final(self).vpool.cells@.len() == old(self).vpool.cells@.len(),
            final(self).pinned@ == old(self).pinned@,
            final(self).status != Status::Done,
            final(self).rstack@.len() <= old(self).rstack@.len(),
            crate::gc::heap_unmarked(*old(self)) ==> crate::gc::heap_unmarked(*final(self)),
            forall|y: Cell|
                #[trigger] old(self).is_root(y) && old(self).in_pool(y)
                    && !old(self).pool.is_free(y)
                    && y != old(self).binding_box(old(self).s_errval)
                    ==> final(self).car_s(y) == old(self).car_s(y)
                        && final(self).cdr_s(y) == old(self).cdr_s(y),
    {
        let m = msg_err();
        self.error(tag, &m, x);
    }

    /// Build a fixnum atom holding `v`.
    pub fn mkfix(&mut self, v: i32) -> (r: Result<Cell, Fault>)
        requires
            old(self).wf(),
        ensures
            final(self).wf(),
            final(self).pool.cap() == old(self).pool.cap(),
            final(self).vpool == old(self).vpool,
            Machine::vm_regs_same(*old(self), *final(self)),
            Machine::tables_same(*old(self), *final(self)),
            final(self).trace == old(self).trace,
            final(self).port_atoms@ == old(self).port_atoms@,
            final(self).inport == old(self).inport,
            final(self).outport == old(self).outport,
            final(self).errport == old(self).errport,
            match r {
                Ok(c) => final(self).fixp_s(c) && final(self).cdr_s(c) == v
                    && final(self).ports@ == old(self).ports@
                    && final(self).erritem == old(self).erritem
                    && final(self).status == old(self).status
                    && !final(self).pool.is_free(c),
                Err(f) => final(self).status == Status::Fatal,
            },
            old(self).pool.free@.len() > 0 ==> r is Ok
                && final(self).pool.free@.len() == old(self).pool.free@.len() - 1,
            crate::gc::heap_unmarked(*old(self)) ==> crate::gc::heap_unmarked(*final(self)),
    {
        proof {
            lemma_tag_constants();
        }
        self.cons3(T_FIXNUM, v, ATOM_TAG)
    }

    /// Build a closure atom over the code object `code` and the
    /// environment chain `env`, both of which the caller keeps rooted.
    pub fn mkclosure(&mut self, code: Cell, env: Cell) -> (r: Result<Cell, Fault>)
        requires
            old(self).wf(),
        ensures
            final(self).wf(),
            final(self).pool.cap() == old(self).pool.cap(),
            final(self).vpool == old(self).vpool,
            final(self).pinned@ == old(self).pinned@,
            Machine::vm_regs_same(*old(self), *final(self)),
            final(self).symbols == old(self).symbols,
            final(self).glob == old(self).glob,
            final(self).handlers == old(self).handlers,
            final(self).s_errval == old(self).s_errval,
            final(self).s_div0 == old(self).s_div0,
            final(self).s_immut == old(self).s_immut,
            final(self).s_type == old(self).s_type,
            final(self).s_arity == old(self).s_arity,
            final(self).s_oflow == old(self).s_oflow,
            final(self).trace == old(self).trace,
            final(self).port_atoms@ == old(self).port_atoms@,
            final(self).inport == old(self).inport,
            final(self).outport == old(self).outport,
            final(self).errport == old(self).errport,
            match r {
                Ok(c) => final(self).closurep_s(c)
                    && final(self).pairp_s(final(self).cdr_s(c))
                    && final(self).car_s(final(self).cdr_s(c)) == code
                    && final(self).cdr_s(final(self).cdr_s(c)) == env
                    && final(self).status == old(self).status
                    && final(self).ports@ == old(self).ports@
                    && final(self).erritem == old(self).erritem
                    && !final(self).pool.is_free(c),
                Err(f) => final(self).status == Status::Fatal,
            },
            old(self).pool.free@.len() >= 2 ==> r is Ok,
            crate::gc::heap_unmarked(*old(self)) ==> crate::gc::heap_unmarked(*final(self)),
    {
        proof {
            lemma_tag_constants();
        }
        let pair = match self.cons3(code, env, 0) {
            Ok(c) => c,
            Err(f) => {
                return Err(f);
            },
        };
        let ghost m1 = *self;
        self.pinned.push(pair);
        proof {
            crate::gc::lemma_contains_after_push(m1.pinned@, pair);
            assert(self.pinned@ == m1.pinned@.push(pair));
            assert(m1.pinned@.push(pair).contains(pair));
            assert(self.is_root(pair));
        }
        let ghost m2 = *self;
        let clos = match self.cons3(T_CLOSURE, pair, ATOM_TAG) {
            Ok(c) => c,
            Err(f) => {
                self.pinned.pop();
                proof {
                    assert(self.pinned@ =~= old(self).pinned@);
                }
                return Err(f);
            },
        };
        self.pinned.pop();
        proof {
            assert(self.pinned@ =~= old(self).pinned@);
            assert(m2.is_root(pair) && m2.in_pool(pair) && !m2.pool.is_free(pair));
            assert(Machine::root_survives(m2, *self, pair));
            crate::cell::lemma_mark_ops(m2.tag_s(pair));
        }
        Ok(clos)
    }

    /// Assemble a code object: the literal cells first (the caller keeps
    /// them rooted), then the instruction words.
    pub fn make_code(&mut self, lits: &Vec<Cell>, instrs: &Vec<Cell>) -> (r: Result<
        Cell,
        Fault,
    >)
        requires
            old(self).wf(),
            lits@.len() <= 0xffff,
            instrs@.len() <= 0xffffff,
        ensures
            final(self).wf(),
            final(self).pool.cap() == old(self).pool.cap(),
            final(self).vpool.cells@.len() == old(self).vpool.cells@.len(),
            Machine::vm_regs_same(*old(self), *final(self)),
            Machine::tables_same(*old(self), *final(self)),
            match r {
                Ok(c) => final(self).bytecodep_s(c) && final(self).status == old(self).status
                    && final(self).strlen_s(c) == 1 + lits@.len() + instrs@.len()
                    && final(self).vec_contents(c) == seq![lits@.len() as i32] + lits@
                        + instrs@,
                Err(f) => final(self).status == Status::Fatal,
            },
            (old(self).pool.free@.len() > 0 && lits@.len() + instrs@.len() + 1 + VEC_HEADER
                <= old(self).vpool.cells@.len() - old(self).vpool.freetop) ==> r is Ok,
    {
        let mut payload: Vec<Cell> = Vec::new();
        payload.push(lits.len() as i32);
        let mut i: usize = 0;
        while i < lits.len()
            invariant
                i <= lits@.len(),
                lits@.len() <= 0xffff,
                payload@ == seq![lits@.len() as i32] + lits@.subrange(0, i as int),
            decreases lits@.len() - i,
        {
            let ghost p0 = payload@;
            payload.push(lits[i]);
            proof {
                assert(payload@ =~= seq![lits@.len() as i32] + lits@.subrange(0, i + 1));
            }
            i = i + 1;
        }
        proof {
            assert(lits@.subrange(0, lits@.len() as int) =~= lits@);
        }
        let mut i: usize = 0;
        while i < instrs.len()
            invariant
                i <= instrs@.len(),
                instrs@.len() <= 0xffffff,
                payload@ == seq![lits@.len() as i32] + lits@ + instrs@.subrange(0, i as int),
            decreases instrs@.len() - i,
        {
            let ghost p0 = payload@;
            payload.push(instrs[i]);
            proof {
                assert(payload@ =~= seq![lits@.len() as i32] + lits@ + instrs@.subrange(
                    0,
                    i + 1,
                ));
            }
            i = i + 1;
        }
        proof {
            assert(instrs@.subrange(0, instrs@.len() as int) =~= instrs@);
            assert(payload@ =~= seq![lits@.len() as i32] + lits@ + instrs@);
        }
        self.vec_filled(T_BYTECODE, &payload)
    }

    /// Point the machine at a code object and reset the registers for a
    /// fresh evaluation.
    pub fn start(&mut self, code: Cell)
        requires
            old(self).wf(),
        ensures
            final(self).wf(),
            final(self).code == code,
            final(self).ip == 0,
            final(self).acc == NIL,
            final(self).env == NIL,
            final(self).stack@.len() == 0,
            final(self).rstack@.len() == 0,
            final(self).cstack@.len() == 0,
            final(self).status == Status::Running,
            final(self).pool == old(self).pool,
            final(self).vpool == old(self).vpool,
            Machine::tables_same(*old(self), *final(self)),
            final(self).ports@ == old(self).ports@,
    {
        self.code = code;
        self.ip = 0;
        self.acc = NIL;
        self.env = NIL;
        self.stack = Vec::new();
        self.rstack = Vec::new();
        self.cstack = Vec::new();
        self.status = Status::Running;
    }

    /// The cell reached from `l` by following `n` `cdr` links.
    pub open spec fn cdr_walk(self, l: Cell, n: int) -> Cell
        decreases n,
    {
        if n <= 0 {
            l
        } else {
            self.cdr_walk(self.cdr_s(l), n - 1)
        }
    }

    /// Every cell on the `n`-step `cdr` walk from `l` is a pair: the
    /// argument frame holds an entry at position `n`.
    pub open spec fn walk_ok(self, l: Cell, n: int) -> bool
        decreases n,
    {
        if n <= 0 {
            self.pairp_s(l)
        } else {
            self.pairp_s(l) && self.walk_ok(self.cdr_s(l), n - 1)
        }
    }

    /// One more step of the walk takes one more `cdr`.
    pub proof fn lemma_cdr_walk_snoc(self, l: Cell, n: int)
        requires
            n >= 0,
        ensures
            self.cdr_walk(l, n + 1) == self.cdr_s(self.cdr_walk(l, n)),
        decreases n,
    {
        reveal_with_fuel(Machine::cdr_walk, 3);
        if n > 0 {
            self.lemma_cdr_walk_snoc(self.cdr_s(l), n - 1);
        }
    }

    /// A passable walk passes through a pair at every position.
    pub proof fn lemma_walk_ok_prefix(self, l: Cell, n: int, j: int)
        requires
            self.walk_ok(l, n),
            0 <= j <= n,
        ensures
            self.pairp_s(self.cdr_walk(l, j)),
        decreases j,
    {
        if j > 0 {
            self.lemma_walk_ok_prefix(self.cdr_s(l), n - 1, j - 1);
        }
    }

    /// Everything outside the VM registers — the pools, the tables, the
    /// ports, the trace ring and the error record — is untouched: the
    /// frame of a non-allocating opcode.
    pub open spec fn core_same(m0: Machine, m1: Machine) -> bool {
        &&& m1.pool == m0.pool
        &&& m1.vpool == m0.vpool
        &&& Machine::tables_same(m0, m1)
        &&& m1.trace == m0.trace
        &&& m1.ports@ == m0.ports@
        &&& m1.port_atoms@ == m0.port_atoms@
        &&& m1.inport == m0.inport
        &&& m1.outport == m0.outport
        &&& m1.errport == m0.errport
        &&& m1.erritem == m0.erritem
    }

    /// The VM registers other than the ones a clause names explicitly.
    pub open spec fn regs_but_acc_ip(m0: Machine, m1: Machine) -> bool {
        &&& m1.stack@ == m0.stack@
        &&& m1.env == m0.env
        &&& m1.code == m0.code
        &&& m1.rstack@ == m0.rstack@
        &&& m1.cstack@ == m0.cstack@
        &&& m1.status == m0.status
    }

    /// What one dispatch step does, opcode by opcode: `m1` is the
    /// machine after executing the instruction `m0`'s program pointer
    /// names.  Each clause is guarded by the operand and type checks the
    /// opcode makes, and by enough free nodes where it allocates; on the
    /// guarded inputs the clause pins the whole register file, and for
    /// mutating and allocating opcodes the exact heap effect.
    pub open spec fn step_post(m0: Machine, m1: Machine) -> bool {
        let op = m0.cur_op();
        let oper = m0.instr_at(m0.ip + 1);
        &&& (m0.instr_avail(1) && op == OP_HALT ==> Machine::core_same(m0, m1)
            && m1.acc == m0.acc && m1.stack@ == m0.stack@ && m1.env == m0.env
            && m1.code == m0.code && m1.rstack@ == m0.rstack@ && m1.cstack@ == m0.cstack@
            && m1.ip == m0.ip && m1.status == Status::Done)
        &&& (m0.instr_avail(2) && op == OP_QUOTE && 0 <= oper < m0.code_nlits()
            ==> Machine::core_same(m0, m1) && Machine::regs_but_acc_ip(m0, m1)
            && m1.acc == m0.vpool.cells@[m0.code_base() + 1 + oper] && m1.ip == m0.ip + 2)
        &&& (m0.instr_avail(1) && op == OP_PUSH ==> Machine::core_same(m0, m1)
            && m1.stack@ == m0.stack@.push(m0.acc) && m1.acc == m0.acc && m1.env == m0.env
            && m1.code == m0.code && m1.rstack@ == m0.rstack@ && m1.cstack@ == m0.cstack@
            && m1.ip == m0.ip + 1 && m1.status == m0.status)
        &&& (m0.instr_avail(1) && op == OP_POP && m0.stack@.len() >= 1
            ==> Machine::core_same(m0, m1) && m1.acc == m0.stack@.last()
            && m1.stack@ == m0.stack@.drop_last() && m1.env == m0.env && m1.code == m0.code
            && m1.rstack@ == m0.rstack@ && m1.cstack@ == m0.cstack@ && m1.ip == m0.ip + 1
            && m1.status == m0.status)
        &&& (m0.instr_avail(2) && op == OP_JMP && oper >= 0 ==> Machine::core_same(m0, m1)
            && Machine::regs_but_acc_ip(m0, m1) && m1.acc == m0.acc && m1.ip == oper)
        &&& (m0.instr_avail(2) && op == OP_BRF && m0.acc != NIL ==> Machine::core_same(
            m0,
            m1,
        ) && Machine::regs_but_acc_ip(m0, m1) && m1.acc == m0.acc && m1.ip == m0.ip + 2)
        &&& (m0.instr_avail(2) && op == OP_BRF && m0.acc == NIL && oper >= 0
            ==> Machine::core_same(m0, m1) && Machine::regs_but_acc_ip(m0, m1)
            && m1.acc == m0.acc && m1.ip == oper)
        &&& (m0.instr_avail(2) && op == OP_ARG && oper >= 0 && m0.pairp_s(m0.env)
            && m0.walk_ok(m0.car_s(m0.env), oper as int) ==> Machine::core_same(m0, m1)
            && Machine::regs_but_acc_ip(m0, m1)
            && m1.acc == m0.car_s(m0.cdr_walk(m0.car_s(m0.env), oper as int))
            && m1.ip == m0.ip + 2)
        &&& (m0.instr_avail(2) && op == OP_CLOSURE && 0 <= oper < m0.code_nlits()
            && m0.pool.free@.len() >= 2 ==> m1.vpool == m0.vpool
            && Machine::regs_but_acc_ip(m0, m1) && m1.ip == m0.ip + 2
            && Machine::tables_same(m0, m1) && m1.ports@ == m0.ports@
            && m1.closurep_s(m1.acc) && m1.pairp_s(m1.cdr_s(m1.acc))
            && m1.car_s(m1.cdr_s(m1.acc)) == m0.vpool.cells@[m0.code_base() + 1 + oper]
            && m1.cdr_s(m1.cdr_s(m1.acc)) == m0.env)
        &&& ((op == OP_APPLY || op == OP_TAILAPP) && m0.instr_avail(2) && oper >= 0
            && oper <= m0.stack@.len() && m0.closurep_s(m0.acc)
            && m0.pairp_s(m0.cdr_s(m0.acc)) && m0.pool.free@.len() > oper ==> ({
            let cb = m0.cdr_s(m0.acc);
            &&& m1.vpool == m0.vpool
            &&& Machine::tables_same(m0, m1)
            &&& m1.ports@ == m0.ports@
            &&& m1.status == m0.status
            &&& m1.code == m0.car_s(cb)
            &&& m1.ip == 0
            &&& m1.acc == m0.acc
            &&& m1.stack@ == m0.stack@.subrange(0, m0.stack@.len() - oper)
            &&& m1.cstack@ == m0.cstack@
            &&& (op == OP_APPLY ==> m1.rstack@ == m0.rstack@.push(
                Frame { code: m0.code, ip: (m0.ip + 2) as usize, env: m0.env },
            ))
            &&& (op == OP_TAILAPP ==> m1.rstack@ == m0.rstack@)
            &&& m1.pairp_s(m1.env)
            &&& m1.cdr_s(m1.env) == m0.cdr_s(cb)
            &&& (oper == 0 ==> m1.car_s(m1.env) == NIL)
            &&& (oper > 0 ==> m1.pairp_s(m1.car_s(m1.env)) && m1.car_s(m1.car_s(m1.env))
                == m0.stack@[m0.stack@.len() - oper])
        }))
        &&& (m0.instr_avail(1) && op == OP_RETURN && m0.rstack@.len() >= 1
            ==> Machine::core_same(m0, m1) && m1.acc == m0.acc && m1.stack@ == m0.stack@
            && m1.cstack@ == m0.cstack@ && m1.rstack@ == m0.rstack@.drop_last()
            && m1.code == m0.rstack@.last().code && m1.ip == m0.rstack@.last().ip
            && m1.env == m0.rstack@.last().env && m1.status == m0.status)
        &&& (m0.instr_avail(1) && op == OP_RETURN && m0.rstack@.len() == 0
            ==> Machine::core_same(m0, m1) && m1.acc == m0.acc && m1.stack@ == m0.stack@
            && m1.env == m0.env && m1.code == m0.code && m1.rstack@ == m0.rstack@
            && m1.cstack@ == m0.cstack@ && m1.ip == m0.ip && m1.status == Status::Done)
        &&& (m0.instr_avail(2) && op == OP_CATCHSTAR && oper >= 0 ==> Machine::core_same(
            m0,
            m1,
        ) && m1.acc == m0.acc && m1.stack@ == m0.stack@ && m1.env == m0.env
            && m1.code == m0.code && m1.rstack@ == m0.rstack@ && m1.cstack@ == m0.cstack@
            .push(
            CatchFrame {
                tag: m0.acc,
                sdep: m0.stack@.len() as usize,
                rdep: m0.rstack@.len() as usize,
                env: m0.env,
                code: m0.code,
                resume: oper as usize,
            },
        ) && m1.ip == m0.ip + 2 && m1.status == m0.status)
        &&& (m0.instr_avail(1) && op == OP_UNCATCH && m0.cstack@.len() >= 1
            ==> Machine::core_same(m0, m1) && m1.acc == m0.acc && m1.stack@ == m0.stack@
            && m1.env == m0.env && m1.code == m0.code && m1.rstack@ == m0.rstack@
            && m1.cstack@ == m0.cstack@.drop_last() && m1.ip == m0.ip + 1
            && m1.status == m0.status)
        &&& (m0.instr_avail(1) && op == OP_THROWSTAR && m0.stack@.len() >= 1 ==> ({
            let t = m0.stack@.last();
            let j = find_catch(m0.cstack@, t);
            &&& (j >= 0 ==> m1.cstack@.len() == j && m1.code == m0.cstack@[j].code
                && m1.ip == m0.cstack@[j].resume && m1.env == m0.cstack@[j].env
                && m1.acc == m0.acc && m1.status == Status::Running)
            &&& (j < 0 ==> m1.status == Status::Aborted)
        }))
        &&& (m0.instr_avail(1) && op == OP_CONS && m0.stack@.len() >= 1
            && m0.pool.free@.len() >= 1 ==> m1.vpool == m0.vpool
            && Machine::tables_same(m0, m1) && m1.ports@ == m0.ports@
            && m1.trace == m0.trace && m1.pairp_s(m1.acc)
            && m1.car_s(m1.acc) == m0.stack@.last() && m1.cdr_s(m1.acc) == m0.acc
            && m1.stack@ == m0.stack@.drop_last() && m1.env == m0.env && m1.code == m0.code
            && m1.rstack@ == m0.rstack@ && m1.cstack@ == m0.cstack@ && m1.ip == m0.ip + 1
            && m1.status == m0.status)
        &&& (m0.instr_avail(1) && op == OP_CAR && m0.pairp_s(m0.acc)
            ==> Machine::core_same(m0, m1) && Machine::regs_but_acc_ip(m0, m1)
            && m1.acc == m0.car_s(m0.acc) && m1.ip == m0.ip + 1)
        &&& (m0.instr_avail(1) && op == OP_CDR && m0.pairp_s(m0.acc)
            ==> Machine::core_same(m0, m1) && Machine::regs_but_acc_ip(m0, m1)
            && m1.acc == m0.cdr_s(m0.acc) && m1.ip == m0.ip + 1)
        &&& (m0.instr_avail(1) && op == OP_SETCAR && m0.stack@.len() >= 1
            && m0.pairp_s(m0.stack@.last()) && !m0.constp_s(m0.stack@.last()) ==> ({
            let p = m0.stack@.last();
            &&& m1.vpool == m0.vpool
            &&& m1.pool.cars@ == m0.pool.cars@.update(p as int, m0.acc)
            &&& m1.pool.cdrs@ == m0.pool.cdrs@
            &&& m1.pool.tags@ == m0.pool.tags@
            &&& m1.pool.free@ == m0.pool.free@
            &&& Machine::tables_same(m0, m1)
            &&& m1.ports@ == m0.ports@
            &&& m1.trace == m0.trace
            &&& m1.acc == p
            &&& m1.stack@ == m0.stack@.drop_last()
            &&& m1.env == m0.env
            &&& m1.code == m0.code
            &&& m1.rstack@ == m0.rstack@
            &&& m1.cstack@ == m0.cstack@
            &&& m1.ip == m0.ip + 1
            &&& m1.status == m0.status
        }))
        &&& (m0.instr_avail(1) && op == OP_SETCDR && m0.stack@.len() >= 1
            && m0.pairp_s(m0.stack@.last()) && !m0.constp_s(m0.stack@.last()) ==> ({
            let p = m0.stack@.last();
            &&& m1.vpool == m0.vpool
            &&& m1.pool.cdrs@ == m0.pool.cdrs@.update(p as int, m0.acc)
            &&& m1.pool.cars@ == m0.pool.cars@
            &&& m1.pool.tags@ == m0.pool.tags@
            &&& m1.pool.free@ == m0.pool.free@
            &&& Machine::tables_same(m0, m1)
            &&& m1.ports@ == m0.ports@
            &&& m1.trace == m0.trace
            &&& m1.acc == p
            &&& m1.stack@ == m0.stack@.drop_last()
            &&& m1.env == m0.env
            &&& m1.code == m0.code
            &&& m1.rstack@ == m0.rstack@
            &&& m1.cstack@ == m0.cstack@
            &&& m1.ip == m0.ip + 1
            &&& m1.status == m0.status
        }))
        &&& ((op == OP_PLUS || op == OP_MINUS) && m0.instr_avail(1) && m0.stack@.len() >= 1
            && m0.fixp_s(m0.stack@.last()) && m0.fixp_s(m0.acc)
            && m0.pool.free@.len() >= 1 && ({
            let v = if op == OP_PLUS {
                m0.cdr_s(m0.stack@.last()) + m0.cdr_s(m0.acc)
            } else {
                m0.cdr_s(m0.stack@.last()) - m0.cdr_s(m0.acc)
            };
            i32::MIN <= v <= i32::MAX
        }) ==> m1.vpool == m0.vpool && Machine::tables_same(m0, m1)
            && m1.ports@ == m0.ports@ && m1.trace == m0.trace && m1.fixp_s(m1.acc)
            && m1.cdr_s(m1.acc) == (if op == OP_PLUS {
            m0.cdr_s(m0.stack@.last()) + m0.cdr_s(m0.acc)
        } else {
            m0.cdr_s(m0.stack@.last()) - m0.cdr_s(m0.acc)
        }) && m1.stack@ == m0.stack@.drop_last() && m1.env == m0.env && m1.code == m0.code
            && m1.rstack@ == m0.rstack@ && m1.cstack@ == m0.cstack@ && m1.ip == m0.ip + 1
            && m1.status == m0.status)
        &&& (m0.instr_avail(1) && op == OP_DIV && m0.stack@.len() >= 1
            && m0.fixp_s(m0.stack@.last()) && m0.fixp_s(m0.acc)
            && m0.cdr_s(m0.stack@.last()) >= 0 && m0.cdr_s(m0.acc) > 0
            && m0.pool.free@.len() >= 1 ==> m1.vpool == m0.vpool
            && Machine::tables_same(m0, m1) && m1.ports@ == m0.ports@
            && m1.trace == m0.trace && m1.fixp_s(m1.acc)
            && m1.cdr_s(m1.acc) == m0.cdr_s(m0.stack@.last()) / m0.cdr_s(m0.acc)
            && m1.stack@ == m0.stack@.drop_last() && m1.ip == m0.ip + 1
            && m1.status == m0.status)
        &&& (m0.instr_avail(1) && op == OP_NUMEQ && m0.stack@.len() >= 1
            && m0.fixp_s(m0.stack@.last()) && m0.fixp_s(m0.acc) ==> Machine::core_same(
            m0,
            m1,
        ) && m1.acc == (if m0.cdr_s(m0.stack@.last()) == m0.cdr_s(m0.acc) {
            TRUE
        } else {
            NIL
        }) && m1.stack@ == m0.stack@.drop_last() && m1.env == m0.env && m1.code == m0.code
            && m1.rstack@ == m0.rstack@ && m1.cstack@ == m0.cstack@ && m1.ip == m0.ip + 1
            && m1.status == m0.status)
        &&& (m0.instr_avail(1) && op == OP_EQ && m0.stack@.len() >= 1
            ==> Machine::core_same(m0, m1) && m1.acc == (if m0.stack@.last() == m0.acc {
            TRUE
        } else {
            NIL
        }) && m1.stack@ == m0.stack@.drop_last() && m1.env == m0.env && m1.code == m0.code
            && m1.rstack@ == m0.rstack@ && m1.cstack@ == m0.cstack@ && m1.ip == m0.ip + 1
            && m1.status == m0.status)
        &&& (m0.instr_avail(2) && op == OP_TAILAPP ==> m1.rstack@.len()
            <= m0.rstack@.len())
        &&& (m0.instr_avail(1) && op == OP_SETCAR && m0.stack@.len() >= 1
            && m0.constp_s(m0.stack@.last()) && !m0.pool.is_free(m0.stack@.last())
            ==> m1.car_s(m0.stack@.last()) == m0.car_s(m0.stack@.last())
            && m1.cdr_s(m0.stack@.last()) == m0.cdr_s(m0.stack@.last())
            && m1.status != Status::Done)
        &&& (m0.instr_avail(1) && op == OP_SETCDR && m0.stack@.len() >= 1
            && m0.constp_s(m0.stack@.last()) && !m0.pool.is_free(m0.stack@.last())
            ==> m1.car_s(m0.stack@.last()) == m0.car_s(m0.stack@.last())
            && m1.cdr_s(m0.stack@.last()) == m0.cdr_s(m0.stack@.last())
            && m1.status != Status::Done)
        &&& m1.wf()
        &&& m1.pool.cap() == m0.pool.cap()
        &&& m1.vpool.cells@.len() == m0.vpool.cells@.len()
        &&& m1.pinned@ == m0.pinned@
    }

    /// `tr` witnesses a complete dispatch run from `m0` to `m1` in at
    /// most `fuel` steps: every step starts from a running machine and
    /// obeys the per-opcode step relation, and the run stops early only
    /// on a machine that is no longer running.
    pub open spec fn run_trace(m0: Machine, m1: Machine, fuel: int, tr: Seq<Machine>) -> bool {
        &&& tr.len() >= 1
        &&& tr.len() <= fuel + 1
        &&& tr[0] == m0
        &&& tr[tr.len() - 1] == m1
        &&& forall|j: int|
            0 <= j < tr.len() - 1 ==> (#[trigger] tr[j]).status == Status::Running
                && Machine::step_post(tr[j], tr[j + 1])
        &&& (m1.status == Status::Running ==> tr.len() == fuel + 1)
    }

    /// One dispatch step: fetch the opcode at the program pointer,
    /// execute it, advance.  Tail application never grows the return
    /// stack; a mutation primitive aimed at an immutable node leaves the
    /// node untouched and raises the immutable-violation error; a throw
    /// restores the matching catch frame's snapshot or aborts.
    #[verifier::rlimit(100)]
    #[verifier::loop_isolation(false)]
    #[verifier::spinoff_prover]
    pub fn step(&mut self)
        requires
            old(self).wf(),
            old(self).status == Status::Running,
        ensures
            final(self).wf(),
            final(self).pool.cap() == old(self).pool.cap(),
            final(self).vpool.cells@.len() == old(self).vpool.cells@.len(),
            final(self).pinned@ == old(self).pinned@,
            crate::gc::heap_unmarked(*old(self)) ==> crate::gc::heap_unmarked(*final(self)),
            Machine::step_post(*old(self), *final(self)),
    {
        proof {
            lemma_tag_constants();
        }
        if !self.code_check(1) {
            self.ill();
            return;
        }
        let op = self.fetch(0);
        if op == OP_HALT {
            self.status = Status::Done;
        } else if op == OP_QUOTE {
            if !self.code_check(2) {
                self.ill();
                return;
            }
            let li = self.fetch(1);
            let o = self.pool.get_cdr(self.code) as usize;
            let nl = self.vpool.get_cell(o);
            if li < 0 || li >= nl {
                self.ill();
                return;
            }
            self.acc = self.fetch_lit(li as usize);
            self.ip = self.ip + 2;
        } else if op == OP_PUSH {
            self.stack.push(self.acc);
            self.ip = self.ip + 1;
        } else if op == OP_POP {
            match self.stack.pop() {
                Some(v) => {
                    self.acc = v;
                    self.ip = self.ip + 1;
                },
                None => {
                    self.ill();
                },
            }
        } else if op == OP_JMP {
            if !self.code_check(2) {
                self.ill();
                return;
            }
            let a = self.fetch(1);
            if a < 0 {
                self.ill();
                return;
            }
            self.ip = a as usize;
        } else if op == OP_BRF {
            if !self.code_check(2) {
                self.ill();
                return;
            }
            let a = self.fetch(1);
            if self.acc == NIL {
                if a < 0 {
                    self.ill();
                    return;
                }
                self.ip = a as usize;
            } else {
                self.ip = self.ip + 2;
            }
        } else if op == OP_ARG {
            if !self.code_check(2) {
                self.ill();
                return;
            }
            let n = self.fetch(1);
            if n < 0 {
                self.ill();
                return;
            }
            if !self.pairp(self.env) {
                let e = self.env;
                self.raise(self.s_type, e);
                return;
            }
            let ghost frame = old(self).car_s(old(self).env);
            let mut cur = self.car_of(self.env);
            let nu = n as usize;
            let mut j: usize = 0;
            while j < nu
                invariant
                    self.wf(),
                    *self == *old(self),
                    j <= nu,
                    cur == old(self).cdr_walk(frame, j as int),
                decreases nu - j,
            {
                if !self.pairp(cur) {
                    proof {
                        if old(self).walk_ok(frame, n as int) {
                            old(self).lemma_walk_ok_prefix(frame, n as int, j as int);
                        }
                    }
                    self.raise(self.s_arity, cur);
                    return;
                }
                proof {
                    old(self).lemma_cdr_walk_snoc(frame, j as int);
                }
                cur = self.cdr_of(cur);
                j = j + 1;
            }
            if !self.pairp(cur) {
                proof {
                    if old(self).walk_ok(frame, n as int) {
                        old(self).lemma_walk_ok_prefix(frame, n as int, n as int);
                    }
                }
                self.raise(self.s_arity, cur);
                return;
            }
            proof {
                assert(self.instr_avail(2));
            }
            self.acc = self.car_of(cur);
            self.ip = self.ip + 2;
        } else if op == OP_CLOSURE {
            if !self.code_check(2) {
                self.ill();
                return;
            }
            let li = self.fetch(1);
            let o = self.pool.get_cdr(self.code) as usize;
            let nl = self.vpool.get_cell(o);
            if li < 0 || li >= nl {
                self.ill();
                return;
            }
            let lit = self.fetch_lit(li as usize);
            let env = self.env;
            let clos = match self.mkclosure(lit, env) {
                Ok(c) => c,
                Err(_) => {
                    return;
                },
            };
            self.acc = clos;
            self.ip = self.ip + 2;
        } else if op == OP_APPLY || op == OP_TAILAPP {
            if !self.code_check(2) {
                self.ill();
                return;
            }
            let n = self.fetch(1);
            if n < 0 {
                self.ill();
                return;
            }
            let nu = n as usize;
            if nu > self.stack.len() {
                let a = self.acc;
                self.raise(self.s_arity, a);
                return;
            }
            let f = self.acc;
            if !self.closurep(f) {
                self.raise(self.s_type, f);
                return;
            }
            let cb = self.cdr_of(f);
            if !self.pairp(cb) {
                self.raise(self.s_type, f);
                return;
            }
            let fcode = self.car_of(cb);
            let fenv = self.cdr_of(cb);
            self.trace.record(f);
            let ghost mg = *self;
            let mut lst = NIL;
            self.pinned.push(lst);
            proof {
                crate::gc::lemma_contains_after_push(mg.pinned@, lst);
            }
            let mut i: usize = 0;
            while i < nu
                invariant
                    self.wf(),
                    nu <= self.stack@.len(),
                    i <= nu,
                    self.pool.cap() == mg.pool.cap(),
                    self.vpool.cells@.len() == mg.vpool.cells@.len(),
                    self.pinned@.len() == mg.pinned@.len() + 1,
                    self.pinned@.subrange(0, mg.pinned@.len() as int) == mg.pinned@,
                    self.pinned@.last() == lst,
                    Machine::vm_regs_same(mg, *self),
                    self.symbols == mg.symbols,
                    self.glob == mg.glob,
                    self.handlers == mg.handlers,
                    self.s_errval == mg.s_errval,
                    self.s_div0 == mg.s_div0,
                    self.s_immut == mg.s_immut,
                    self.s_type == mg.s_type,
                    self.s_arity == mg.s_arity,
                    self.s_oflow == mg.s_oflow,
                    self.trace == mg.trace,
                    self.ports@ == mg.ports@,
                    self.port_atoms@ == mg.port_atoms@,
                    self.inport == mg.inport,
                    self.outport == mg.outport,
                    self.errport == mg.errport,
                    self.erritem == mg.erritem,
                    self.status == mg.status,
                    crate::gc::heap_unmarked(*old(self)) ==> crate::gc::heap_unmarked(
                        *self,
                    ),
                    mg.pool.free@.len() > nu ==> ({
                        &&& self.pool.free@.len() >= mg.pool.free@.len() - i
                        &&& self.vpool == mg.vpool
                        &&& (i == 0 ==> lst == NIL)
                        &&& (i > 0 ==> !self.pool.is_free(lst) && self.pairp_s(lst)
                            && self.car_s(lst) == mg.stack@[mg.stack@.len() - i])
                    }),
                decreases nu - i,
            {
                let v = self.stack[self.stack.len() - 1 - i];
                let c = match self.cons3(v, lst, 0) {
                    Ok(c) => c,
                    Err(_) => {
                        self.pinned.pop();
                        proof {
                            assert(self.pinned@ =~= mg.pinned@);
                        }
                        return;
                    },
                };
                lst = c;
                let pl = self.pinned.len();
                self.pinned[pl - 1] = lst;
                proof {
                    assert(self.pinned@.subrange(0, mg.pinned@.len() as int)
                        =~= mg.pinned@);
                }
                i = i + 1;
            }
            let ghost ml = *self;
            let e = match self.cons3(lst, fenv, 0) {
                Ok(c) => c,
                Err(_) => {
                    self.pinned.pop();
                    proof {
                        assert(self.pinned@ =~= mg.pinned@);
                    }
                    return;
                },
            };
            self.pinned.pop();
            proof {
                assert(self.pinned@ =~= mg.pinned@);
                crate::cell::lemma_mark_ops(0);
                if mg.pool.free@.len() > nu && nu > 0 {
                    // The freshly built frame head survives the final
                    // environment cons untouched: it is pinned and live.
                    assert(ml.pinned@.last() == lst);
                    assert(ml.pinned@.contains(lst));
                    assert(ml.is_root(lst));
                    assert(Machine::root_survives(ml, *self, lst));
                    assert(self.car_s(lst) == mg.stack@[mg.stack@.len() - nu]);
                    assert(self.pairp_s(lst));
                }
            }
            let newlen = self.stack.len() - nu;
            self.stack.truncate(newlen);
            if op == OP_APPLY {
                let fr = Frame { code: self.code, ip: self.ip + 2, env: self.env };
                self.rstack.push(fr);
            }
            self.env = e;
            self.code = fcode;
            self.ip = 0;
        } else if op == OP_RETURN {
            match self.rstack.pop() {
                Some(fr) => {
                    self.code = fr.code;
                    self.ip = fr.ip;
                    self.env = fr.env;
                },
                None => {
                    self.status = Status::Done;
                },
            }
        } else if op == OP_CATCHSTAR {
            if !self.code_check(2) {
                self.ill();
                return;
            }
            let a = self.fetch(1);
            if a < 0 {
                self.ill();
                return;
            }
            let cf = CatchFrame {
                tag: self.acc,
                sdep: self.stack.len(),
                rdep: self.rstack.len(),
                env: self.env,
                code: self.code,
                resume: a as usize,
            };
            self.cstack.push(cf);
            self.ip = self.ip + 2;
        } else if op == OP_UNCATCH {
            match self.cstack.pop() {
                Some(_) => {
                    self.ip = self.ip + 1;
                },
                None => {
                    self.ill();
                },
            }
        } else if op == OP_THROWSTAR {
            let ln = self.stack.len();
            if ln == 0 {
                let a = self.acc;
                self.raise(self.s_arity, a);
                return;
            }
            let t = self.stack[ln - 1];
            proof {
                crate::error::lemma_find_catch_bounds(old(self).cstack@, t);
            }
            self.stack.truncate(ln - 1);
            let v = self.acc;
            self.longjmp(t, v);
        } else if op == OP_CONS {
            let ln = self.stack.len();
            if ln == 0 {
                let a = self.acc;
                self.raise(self.s_arity, a);
                return;
            }
            let a = self.stack[ln - 1];
            let d = self.acc;
            let c = match self.cons3(a, d, 0) {
                Ok(c) => c,
                Err(_) => {
                    return;
                },
            };
            self.stack.pop();
            self.acc = c;
            self.ip = self.ip + 1;
        } else if op == OP_CAR {
            if !self.pairp(self.acc) {
                let a = self.acc;
                self.raise(self.s_type, a);
                return;
            }
            self.acc = self.car_of(self.acc);
            self.ip = self.ip + 1;
        } else if op == OP_CDR {
            if !self.pairp(self.acc) {
                let a = self.acc;
                self.raise(self.s_type, a);
                return;
            }
            self.acc = self.cdr_of(self.acc);
            self.ip = self.ip + 1;
        } else if op == OP_SETCAR || op == OP_SETCDR {
            let ln = self.stack.len();
            if ln == 0 {
                let a = self.acc;
                self.raise(self.s_arity, a);
                return;
            }
            let p = self.stack[ln - 1];
            proof {
                let b = old(self).binding_box(old(self).s_errval);
                if b != NIL {
                    assert(!old(self).constp_s(b));
                }
                assert(old(self).stack@[ln - 1] == p);
                assert(old(self).stack@.contains(p));
                assert(old(self).is_root(p));
            }
            if !self.pairp(p) {
                self.raise(self.s_type, p);
                return;
            }
            if self.constp(p) {
                self.raise(self.s_immut, p);
                return;
            }
            if op == OP_SETCAR {
                self.pool.set_car(p, self.acc);
            } else {
                self.pool.set_cdr(p, self.acc);
            }
            self.stack.pop();
            self.acc = p;
            self.ip = self.ip + 1;
        } else if op == OP_PLUS || op == OP_MINUS || op == OP_DIV {
            let ln = self.stack.len();
            if ln == 0 {
                let a = self.acc;
                self.raise(self.s_arity, a);
                return;
            }
            let x = self.stack[ln - 1];
            let y = self.acc;
            if !self.fixp(x) {
                self.raise(self.s_type, x);
                return;
            }
            if !self.fixp(y) {
                self.raise(self.s_type, y);
                return;
            }
            let xv = self.fixval(x);
            let yv = self.fixval(y);
            let rv: i64;
            if op == OP_PLUS {
                rv = xv as i64 + yv as i64;
            } else if op == OP_MINUS {
                rv = xv as i64 - yv as i64;
            } else {
                if yv == 0 {
                    self.raise(self.s_div0, x);
                    return;
                }
                if xv == i32::MIN && yv == -1 {
                    self.raise(self.s_oflow, x);
                    return;
                }
                rv = (xv / yv) as i64;
            }
            if rv > i32::MAX as i64 || rv < i32::MIN as i64 {
                self.raise(self.s_oflow, x);
                return;
            }
            let c = match self.mkfix(rv as i32) {
                Ok(c) => c,
                Err(_) => {
                    return;
                },
            };
            self.stack.pop();
            self.acc = c;
            self.ip = self.ip + 1;
        } else if op == OP_NUMEQ {
            let ln = self.stack.len();
            if ln == 0 {
                let a = self.acc;
                self.raise(self.s_arity, a);
                return;
            }
            let x = self.stack[ln - 1];
            let y = self.acc;
            if !self.fixp(x) {
                self.raise(self.s_type, x);
                return;
            }
            if !self.fixp(y) {
                self.raise(self.s_type, y);
                return;
            }
            let same = self.fixval(x) == self.fixval(y);
            self.stack.truncate(ln - 1);
            if same {
                self.acc = TRUE;
            } else {
                self.acc = NIL;
            }
            self.ip = self.ip + 1;
        } else if op == OP_EQ {
            let ln = self.stack.len();
            if ln == 0 {
                let a = self.acc;
                self.raise(self.s_arity, a);
                return;
            }
            let x = self.stack[ln - 1];
            self.stack.truncate(ln - 1);
            if x == self.acc {
                self.acc = TRUE;
            } else {
                self.acc = NIL;
            }
            self.ip = self.ip + 1;
        } else {
            self.ill();
        }
    }

    /// Run the dispatch loop for at most `fuel` steps, or until a halt,
    /// an abort or a fatal condition stops the machine.  The host may
    /// refuse to call again to cancel an evaluation; the machine never
    /// blocks inside a step.
    pub fn run(&mut self, fuel: usize) -> (r: Status)
        requires
            old(self).wf(),
        ensures
            final(self).wf(),
            r == final(self).status,
            final(self).pinned@ == old(self).pinned@,
            old(self).status != Status::Running ==> *final(self) == *old(self),
            crate::gc::heap_unmarked(*old(self)) ==> crate::gc::heap_unmarked(*final(self)),
            exists|tr: Seq<Machine>|
                #[trigger] Machine::run_trace(*old(self), *final(self), fuel as int, tr),
    {
        let mut i: usize = 0;
        let mut done = false;
        let ghost mut tr: Seq<Machine> = seq![*old(self)];
        while i < fuel && !done
            invariant
                self.wf(),
                self.pinned@ == old(self).pinned@,
                i <= fuel,
                tr.len() == i + 1,
                tr[0] == *old(self),
                tr[tr.len() - 1] == *self,
                forall|j: int|
                    0 <= j < tr.len() - 1 ==> (#[trigger] tr[j]).status == Status::Running
                        && Machine::step_post(tr[j], tr[j + 1]),
                old(self).status != Status::Running ==> *self == *old(self),
                done ==> self.status != Status::Running,
                crate::gc::heap_unmarked(*old(self)) ==> crate::gc::heap_unmarked(*self),
            decreases fuel - i, (if done { 0int } else { 1int }),
        {
            let running = matches!(self.status, Status::Running);
            if !running {
                done = true;
            } else {
                let ghost prev = tr;
                self.step();
                proof {
                    tr = prev.push(*self);
                    assert forall|j: int|
                        0 <= j < tr.len() - 1
                        implies (#[trigger] tr[j]).status == Status::Running
                            && Machine::step_post(tr[j], tr[j + 1]) by {
                        if j < prev.len() - 1 {
                            assert(tr[j] == prev[j] && tr[j + 1] == prev[j + 1]);
                        } else {
                            assert(tr[j] == prev[prev.len() - 1]);
                        }
                    }
                }
                i = i + 1;
            }
        }
        proof {
            assert(Machine::run_trace(*old(self), *self, fuel as int, tr));
        }
        self.status
    }
}

} // verus!
