//! The tagged value model: a `Cell` is a signed integer handle.  Negative
//! values are immediate singletons; non-negative values index into the
//! node pool.  Node-pool slots carry a tag word whose bits say what the
//! slot is (pair, atom, vector header) and record transient collector and
//! port-lifecycle state.

use vstd::prelude::*;

verus! {

/// Integer handle identifying either an immediate sentinel (negative) or a
/// node-pool slot (non-negative index).
pub type Cell = i32;

/// The empty list, and the false value of conditionals.
pub const NIL: i32 = -1;
/// The canonical true value.
pub const TRUE: i32 = -2;
/// End-of-file sentinel returned by input primitives.
pub const EOFMARK: i32 = -3;
/// The undefined value.
pub const UNDEF: i32 = -4;
/// Reader-internal sentinel: a closing parenthesis.
pub const RPAREN: i32 = -5;
/// Reader-internal sentinel: a dot.
pub const DOT: i32 = -6;

/// Tag bit: slot is an atom; `car` holds a type tag, `cdr` holds a link.
pub const ATOM_TAG: i32 = 0x01;
/// Tag bit: transient collector mark.
pub const MARK_TAG: i32 = 0x02;
/// Tag bit: transient collector traversal state.
pub const TRAV_TAG: i32 = 0x04;
/// Tag bit: slot is a vector header; `car` holds a type tag, `cdr` holds
/// the offset of the backing storage in the vector pool.
pub const VECTOR_TAG: i32 = 0x08;
/// Tag bit: the atom is an I/O port.
pub const PORT_TAG: i32 = 0x10;
/// Tag bit: the port's slot in the port table is occupied.
pub const USED_TAG: i32 = 0x20;
/// Tag bit: the port survives a bulk close-all-ports operation.
pub const LOCK_TAG: i32 = 0x40;
/// Tag bit: the node is immutable; mutating primitives must reject it.
pub const CONST_TAG: i32 = 0x80;

/// Atom type tag: a compiled bytecode vector.
pub const T_BYTECODE: i32 = -10;
/// Atom type tag: a catch tag identifying one dynamic extent of `catch`.
pub const T_CATCHTAG: i32 = -11;
/// Atom type tag: a character.
pub const T_CHAR: i32 = -12;
/// Atom type tag: a closure.
pub const T_CLOSURE: i32 = -13;
/// Atom type tag: a fixnum; the `cdr` holds the value itself.
pub const T_FIXNUM: i32 = -14;
/// Atom type tag: an input port.
pub const T_INPORT: i32 = -15;
/// Atom type tag: an output port.
pub const T_OUTPORT: i32 = -16;
/// Atom type tag: a string (vector of character cells).
pub const T_STRING: i32 = -17;
/// Atom type tag: a symbol (vector of character cells, interned).
pub const T_SYMBOL: i32 = -18;
/// Atom type tag: an ordinary vector of cells.
pub const T_VECTOR: i32 = -19;

/// The tag word `t` has bit `b` set.
pub open spec fn bit_on(t: i32, b: i32) -> bool {
    (t & b) != 0
}

/// How the tag-bit constants behave under the bit tests that the
/// allocators, the predicates and the collector rely on.
pub proof fn lemma_tag_constants()
    ensures
        bit_on(ATOM_TAG, ATOM_TAG),
        !bit_on(ATOM_TAG, VECTOR_TAG),
        !bit_on(ATOM_TAG, MARK_TAG),
        !bit_on(ATOM_TAG, CONST_TAG),
        bit_on(VECTOR_TAG, VECTOR_TAG),
        !bit_on(VECTOR_TAG, ATOM_TAG),
        !bit_on(VECTOR_TAG, MARK_TAG),
        !bit_on(VECTOR_TAG, CONST_TAG),
        !bit_on(0, ATOM_TAG),
        !bit_on(0, VECTOR_TAG),
        !bit_on(0, MARK_TAG),
        !bit_on(0, CONST_TAG),
        bit_on(ATOM_TAG | PORT_TAG | USED_TAG | LOCK_TAG, ATOM_TAG),
        bit_on(ATOM_TAG | PORT_TAG | USED_TAG | LOCK_TAG, PORT_TAG),
        bit_on(ATOM_TAG | PORT_TAG | USED_TAG | LOCK_TAG, LOCK_TAG),
        !bit_on(ATOM_TAG | PORT_TAG | USED_TAG | LOCK_TAG, VECTOR_TAG),
        !bit_on(ATOM_TAG | PORT_TAG | USED_TAG | LOCK_TAG, MARK_TAG),
        bit_on(CONST_TAG, CONST_TAG),
        !bit_on(CONST_TAG, ATOM_TAG),
        !bit_on(CONST_TAG, VECTOR_TAG),
        !bit_on(CONST_TAG, MARK_TAG),
{
    assert(0x01i32 & 0x01i32 != 0) by (bit_vector);
    assert(0x01i32 & 0x08i32 == 0) by (bit_vector);
    assert(0x01i32 & 0x02i32 == 0) by (bit_vector);
    assert(0x01i32 & 0x80i32 == 0) by (bit_vector);
    assert(0x08i32 & 0x08i32 != 0) by (bit_vector);
    assert(0x08i32 & 0x01i32 == 0) by (bit_vector);
    assert(0x08i32 & 0x02i32 == 0) by (bit_vector);
    assert(0x08i32 & 0x80i32 == 0) by (bit_vector);
    assert(0i32 & 0x01i32 == 0) by (bit_vector);
    assert(0i32 & 0x08i32 == 0) by (bit_vector);
    assert(0i32 & 0x02i32 == 0) by (bit_vector);
    assert(0i32 & 0x80i32 == 0) by (bit_vector);
    assert((0x01i32 | 0x10i32 | 0x20i32 | 0x40i32) & 0x01i32 != 0) by (bit_vector);
    assert((0x01i32 | 0x10i32 | 0x20i32 | 0x40i32) & 0x10i32 != 0) by (bit_vector);
    assert((0x01i32 | 0x10i32 | 0x20i32 | 0x40i32) & 0x40i32 != 0) by (bit_vector);
    assert((0x01i32 | 0x10i32 | 0x20i32 | 0x40i32) & 0x08i32 == 0) by (bit_vector);
    assert((0x01i32 | 0x10i32 | 0x20i32 | 0x40i32) & 0x02i32 == 0) by (bit_vector);
    assert(0x80i32 & 0x80i32 != 0) by (bit_vector);
    assert(0x80i32 & 0x01i32 == 0) by (bit_vector);
    assert(0x80i32 & 0x08i32 == 0) by (bit_vector);
    assert(0x80i32 & 0x02i32 == 0) by (bit_vector);
}

/// How setting and clearing the collector's mark bit interacts with the
/// other tag bits of an arbitrary tag word.
pub proof fn lemma_mark_ops(t: i32)
    ensures
        bit_on(t | MARK_TAG, MARK_TAG),
        ((t | MARK_TAG) & !MARK_TAG) == (t & !MARK_TAG),
        ((t | MARK_TAG) | MARK_TAG) == (t | MARK_TAG),
        !bit_on(t & !MARK_TAG, MARK_TAG),
        bit_on(t, ATOM_TAG) == bit_on(t | MARK_TAG, ATOM_TAG),
        bit_on(t, VECTOR_TAG) == bit_on(t | MARK_TAG, VECTOR_TAG),
        bit_on(t, ATOM_TAG) == bit_on(t & !MARK_TAG, ATOM_TAG),
        bit_on(t, VECTOR_TAG) == bit_on(t & !MARK_TAG, VECTOR_TAG),
        bit_on(t, CONST_TAG) == bit_on(t & !MARK_TAG, CONST_TAG),
        bit_on(t, PORT_TAG) == bit_on(t & !MARK_TAG, PORT_TAG),
        bit_on(t, LOCK_TAG) == bit_on(t & !MARK_TAG, LOCK_TAG),
        bit_on(t, USED_TAG) == bit_on(t & !MARK_TAG, USED_TAG),
        !bit_on(t, MARK_TAG) ==> (t & !MARK_TAG) == t,
{
    assert((t | 0x02i32) & 0x02i32 != 0) by (bit_vector);
    assert(((t | 0x02i32) & !0x02i32) == (t & !0x02i32)) by (bit_vector);
    assert(((t | 0x02i32) | 0x02i32) == (t | 0x02i32)) by (bit_vector);
    assert((t & !0x02i32) & 0x02i32 == 0) by (bit_vector);
    assert((t & 0x01i32 != 0) == ((t | 0x02i32) & 0x01i32 != 0)) by (bit_vector);
    assert((t & 0x08i32 != 0) == ((t | 0x02i32) & 0x08i32 != 0)) by (bit_vector);
    assert((t & 0x01i32 != 0) == ((t & !0x02i32) & 0x01i32 != 0)) by (bit_vector);
    assert((t & 0x08i32 != 0) == ((t & !0x02i32) & 0x08i32 != 0)) by (bit_vector);
    assert((t & 0x80i32 != 0) == ((t & !0x02i32) & 0x80i32 != 0)) by (bit_vector);
    assert((t & 0x10i32 != 0) == ((t & !0x02i32) & 0x10i32 != 0)) by (bit_vector);
    assert((t & 0x40i32 != 0) == ((t & !0x02i32) & 0x40i32 != 0)) by (bit_vector);
    assert((t & 0x20i32 != 0) == ((t & !0x02i32) & 0x20i32 != 0)) by (bit_vector);
    assert(t & 0x02i32 == 0 ==> (t & !0x02i32) == t) by (bit_vector);
}

/// An immediate singleton: not an index into the node pool.
pub open spec fn specialp(x: Cell) -> bool {
    x < 0
}

/// Executable form of `specialp`.
pub fn is_special(x: Cell) -> (r: bool)
    ensures
        r == specialp(x),
{
    x < 0
}

} // verus!
