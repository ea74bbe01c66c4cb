//! The virtual machine from outside: evaluation scenarios over hand
//! assembled code objects, including tail application, catch/throw,
//! handler dispatch and the immutability check.

use ls9core::cell::CONST_TAG;
use ls9core::cell::NIL;
use ls9core::cell::TRUE;
use ls9core::machine::machine_new;
use ls9core::machine::Machine;
use ls9core::machine::Status;
use ls9core::trace::gottrace;
use ls9core::vm::OP_APPLY;
use ls9core::vm::OP_ARG;
use ls9core::vm::OP_BRF;
use ls9core::vm::OP_CAR;
use ls9core::vm::OP_CATCHSTAR;
use ls9core::vm::OP_CDR;
use ls9core::vm::OP_CONS;
use ls9core::vm::OP_DIV;
use ls9core::vm::OP_EQ;
use ls9core::vm::OP_HALT;
use ls9core::vm::OP_JMP;
use ls9core::vm::OP_MINUS;
use ls9core::vm::OP_NUMEQ;
use ls9core::vm::OP_PLUS;
use ls9core::vm::OP_PUSH;
use ls9core::vm::OP_QUOTE;
use ls9core::vm::OP_SETCAR;
use ls9core::vm::OP_SETCDR;
use ls9core::vm::OP_TAILAPP;
use ls9core::vm::OP_THROWSTAR;
use ls9core::vm::OP_UNCATCH;
use ls9core::vm::OP_RETURN;

fn assemble(m: &mut Machine, lits: Vec<i32>, instrs: Vec<i32>) -> i32 {
    // The caller keeps literal cells alive through the machine's roots;
    // in these tests the pools are nowhere near exhaustion, so no
    // collection intervenes between building the literals and here.
    m.make_code(&lits, &instrs).unwrap()
}

#[test]
fn quote_and_halt_deliver_the_literal() {
    let mut m = machine_new();
    let f = m.mkfix(42).unwrap();
    let code = assemble(&mut m, vec![f], vec![OP_QUOTE, 0, OP_HALT]);
    m.start(code);
    let st = m.run(100);
    assert_eq!(st, Status::Done);
    assert_eq!(m.acc, f);
    assert_eq!(m.fixval(m.acc), 42);
}

#[test]
fn arithmetic_computes_exact_values() {
    let mut m = machine_new();
    let a = m.mkfix(40).unwrap();
    let b = m.mkfix(2).unwrap();
    let code = assemble(
        &mut m,
        vec![a, b],
        vec![OP_QUOTE, 0, OP_PUSH, OP_QUOTE, 1, OP_PLUS, OP_HALT],
    );
    m.start(code);
    assert_eq!(m.run(100), Status::Done);
    assert_eq!(m.fixval(m.acc), 42);

    let code = assemble(
        &mut m,
        vec![a, b],
        vec![OP_QUOTE, 0, OP_PUSH, OP_QUOTE, 1, OP_MINUS, OP_HALT],
    );
    m.start(code);
    assert_eq!(m.run(100), Status::Done);
    assert_eq!(m.fixval(m.acc), 38);

    let code = assemble(
        &mut m,
        vec![a, b],
        vec![OP_QUOTE, 0, OP_PUSH, OP_QUOTE, 1, OP_DIV, OP_HALT],
    );
    m.start(code);
    assert_eq!(m.run(100), Status::Done);
    assert_eq!(m.fixval(m.acc), 20);
}

#[test]
fn cons_car_cdr_round_trip_in_bytecode() {
    let mut m = machine_new();
    let a = m.mkfix(1).unwrap();
    let b = m.mkfix(2).unwrap();
    // Build (1 . 2), then take its car.
    let code = assemble(
        &mut m,
        vec![a, b],
        vec![OP_QUOTE, 0, OP_PUSH, OP_QUOTE, 1, OP_CONS, OP_CAR, OP_HALT],
    );
    m.start(code);
    assert_eq!(m.run(100), Status::Done);
    assert_eq!(m.acc, a);
    // And the cdr.
    let code = assemble(
        &mut m,
        vec![a, b],
        vec![OP_QUOTE, 0, OP_PUSH, OP_QUOTE, 1, OP_CONS, OP_CDR, OP_HALT],
    );
    m.start(code);
    assert_eq!(m.run(100), Status::Done);
    assert_eq!(m.acc, b);
}

#[test]
fn division_by_zero_without_handler_aborts() {
    let mut m = machine_new();
    let one = m.mkfix(1).unwrap();
    let zero = m.mkfix(0).unwrap();
    let code = assemble(
        &mut m,
        vec![one, zero],
        vec![OP_QUOTE, 0, OP_PUSH, OP_QUOTE, 1, OP_DIV, OP_HALT],
    );
    m.start(code);
    assert_eq!(m.run(100), Status::Aborted);
}

#[test]
fn division_by_zero_dispatches_to_installed_handler() {
    let mut m = machine_new();
    // Handler: return its argument (the error value) as the result.
    let hcode = assemble(&mut m, vec![], vec![OP_ARG, 0, OP_RETURN]);
    let hclos = m.mkclosure(hcode, NIL).unwrap();
    let div0 = m.s_div0;
    m.install_handler(div0, hclos).unwrap();
    let one = m.mkfix(1).unwrap();
    let zero = m.mkfix(0).unwrap();
    let code = assemble(
        &mut m,
        vec![one, zero],
        vec![OP_QUOTE, 0, OP_PUSH, OP_QUOTE, 1, OP_DIV, OP_HALT],
    );
    m.start(code);
    let st = m.run(100);
    // Execution resumed at the handler's extent, not an abort: the
    // handler returned the offending dividend.
    assert_eq!(st, Status::Done);
    assert_eq!(m.acc, one);
    // The error value variable was rebound to the offending datum.
    let e = m.assq(m.s_errval, m.glob);
    assert_ne!(e, NIL);
    assert_eq!(m.car_of(m.cdr_of(e)), one);
}

#[test]
fn catch_with_matching_throw_delivers_the_value() {
    let mut m = machine_new();
    let tag1 = m.intern(&vec![116, 49]).unwrap();
    let f42 = m.mkfix(42).unwrap();
    let code = assemble(
        &mut m,
        vec![tag1, f42],
        vec![
            OP_QUOTE, 0,      // acc = 'tag1
            OP_CATCHSTAR, 12, // open extent; resume past it
            OP_QUOTE, 0,      // tag to throw: 'tag1
            OP_PUSH,
            OP_QUOTE, 1,      // value 42
            OP_THROWSTAR,
            OP_UNCATCH,
            OP_HALT,
            OP_HALT,          // resume point: result in acc
        ],
    );
    m.start(code);
    assert_eq!(m.run(100), Status::Done);
    assert_eq!(m.acc, f42);
    assert_eq!(m.fixval(m.acc), 42);
    assert_eq!(m.cstack.len(), 0);
}

#[test]
fn throw_with_unmatched_tag_propagates_as_uncaught() {
    let mut m = machine_new();
    let tag1 = m.intern(&vec![116, 49]).unwrap();
    let tag2 = m.intern(&vec![116, 50]).unwrap();
    let f42 = m.mkfix(42).unwrap();
    let code = assemble(
        &mut m,
        vec![tag1, f42, tag2],
        vec![
            OP_QUOTE, 0,      // acc = 'tag1
            OP_CATCHSTAR, 12,
            OP_QUOTE, 2,      // throw 'tag2 instead
            OP_PUSH,
            OP_QUOTE, 1,
            OP_THROWSTAR,
            OP_UNCATCH,
            OP_HALT,
            OP_HALT,
        ],
    );
    m.start(code);
    assert_eq!(m.run(100), Status::Aborted);
}

#[test]
fn catch_extent_closes_on_normal_completion() {
    let mut m = machine_new();
    let tag1 = m.intern(&vec![116, 49]).unwrap();
    let f7 = m.mkfix(7).unwrap();
    let code = assemble(
        &mut m,
        vec![tag1, f7],
        vec![
            OP_QUOTE, 0,
            OP_CATCHSTAR, 9,
            OP_QUOTE, 1, // body value
            OP_UNCATCH,
            OP_HALT,
            OP_HALT,
        ],
    );
    m.start(code);
    assert_eq!(m.run(100), Status::Done);
    assert_eq!(m.acc, f7);
    assert_eq!(m.cstack.len(), 0);
}

#[test]
fn setcar_mutates_an_ordinary_pair() {
    let mut m = machine_new();
    let f1 = m.mkfix(1).unwrap();
    let f9 = m.mkfix(9).unwrap();
    let pair = m.cons3(f1, NIL, 0).unwrap();
    let code = assemble(
        &mut m,
        vec![pair, f9],
        vec![OP_QUOTE, 0, OP_PUSH, OP_QUOTE, 1, OP_SETCAR, OP_HALT],
    );
    m.start(code);
    assert_eq!(m.run(100), Status::Done);
    assert_eq!(m.acc, pair);
    assert_eq!(m.car_of(pair), f9);
}

#[test]
fn setcar_on_const_pair_signals_and_leaves_contents() {
    let mut m = machine_new();
    let f5 = m.mkfix(5).unwrap();
    let f9 = m.mkfix(9).unwrap();
    let pair = m.cons3(f5, NIL, CONST_TAG).unwrap();
    let code = assemble(
        &mut m,
        vec![pair, f9],
        vec![OP_QUOTE, 0, OP_PUSH, OP_QUOTE, 1, OP_SETCAR, OP_HALT],
    );
    m.start(code);
    // No handler installed: the immutable violation aborts the
    // evaluation, and the pair is untouched.
    assert_eq!(m.run(100), Status::Aborted);
    assert_eq!(m.car_of(pair), f5);
    assert_eq!(m.cdr_of(pair), NIL);
}

#[test]
fn setcdr_on_const_pair_signals_and_leaves_contents() {
    let mut m = machine_new();
    let f5 = m.mkfix(5).unwrap();
    let f9 = m.mkfix(9).unwrap();
    let pair = m.cons3(f5, NIL, CONST_TAG).unwrap();
    let code = assemble(
        &mut m,
        vec![pair, f9],
        vec![OP_QUOTE, 0, OP_PUSH, OP_QUOTE, 1, OP_SETCDR, OP_HALT],
    );
    m.start(code);
    assert_eq!(m.run(100), Status::Aborted);
    assert_eq!(m.car_of(pair), f5);
    assert_eq!(m.cdr_of(pair), NIL);
}

#[test]
fn immutable_violation_dispatches_to_handler() {
    let mut m = machine_new();
    let hcode = assemble(&mut m, vec![], vec![OP_ARG, 0, OP_RETURN]);
    let hclos = m.mkclosure(hcode, NIL).unwrap();
    let immut = m.s_immut;
    m.install_handler(immut, hclos).unwrap();
    let f5 = m.mkfix(5).unwrap();
    let f9 = m.mkfix(9).unwrap();
    let pair = m.cons3(f5, NIL, CONST_TAG).unwrap();
    let code = assemble(
        &mut m,
        vec![pair, f9],
        vec![OP_QUOTE, 0, OP_PUSH, OP_QUOTE, 1, OP_SETCAR, OP_HALT],
    );
    m.start(code);
    assert_eq!(m.run(100), Status::Done);
    // The handler received the offending pair; its contents survive.
    assert_eq!(m.acc, pair);
    assert_eq!(m.car_of(pair), f5);
}

#[test]
fn apply_and_return_compute_through_a_closure() {
    let mut m = machine_new();
    // A closure adding 1 to its argument.
    let one = m.mkfix(1).unwrap();
    let fcode = assemble(
        &mut m,
        vec![one],
        vec![OP_ARG, 0, OP_PUSH, OP_QUOTE, 0, OP_PLUS, OP_RETURN],
    );
    let fclos = m.mkclosure(fcode, NIL).unwrap();
    let f41 = m.mkfix(41).unwrap();
    let code = assemble(
        &mut m,
        vec![f41, fclos],
        vec![OP_QUOTE, 0, OP_PUSH, OP_QUOTE, 1, OP_APPLY, 1, OP_HALT],
    );
    m.start(code);
    assert_eq!(m.run(1000), Status::Done);
    assert_eq!(m.fixval(m.acc), 42);
    // The application went through the trace ring.
    assert!(gottrace(&m.trace));
}

#[test]
fn tail_recursion_runs_deep_in_constant_space() {
    let mut m = machine_new();
    let zero = m.mkfix(0).unwrap();
    let one = m.mkfix(1).unwrap();
    // Args: (n self).  Count down to zero by tail application.
    let loop_code = assemble(
        &mut m,
        vec![zero, one],
        vec![
            OP_ARG, 0,       // n
            OP_PUSH,
            OP_QUOTE, 0,     // 0
            OP_NUMEQ,
            OP_BRF, 11,
            OP_ARG, 0,       // n == 0: deliver n
            OP_HALT,
            OP_ARG, 0,       // n
            OP_PUSH,
            OP_QUOTE, 1,     // 1
            OP_MINUS,        // n - 1
            OP_PUSH,
            OP_ARG, 1,       // self
            OP_PUSH,
            OP_ARG, 1,
            OP_TAILAPP, 2,
        ],
    );
    let lclos = m.mkclosure(loop_code, NIL).unwrap();
    let k = m.mkfix(200_000).unwrap();
    let code = assemble(
        &mut m,
        vec![k, lclos],
        vec![
            OP_QUOTE, 0,
            OP_PUSH,
            OP_QUOTE, 1,
            OP_PUSH,
            OP_QUOTE, 1,
            OP_TAILAPP, 2,
        ],
    );
    m.start(code);
    let st = m.run(50_000_000);
    assert_eq!(st, Status::Done);
    // The control stack never grew: tail application replaces the
    // registers instead of pushing return frames.
    assert_eq!(m.rstack.len(), 0);
    assert_eq!(m.fixval(m.acc), 0);
}

#[test]
fn run_out_of_fuel_leaves_machine_running() {
    let mut m = machine_new();
    let code = assemble(&mut m, vec![], vec![OP_JMP, 0]);
    m.start(code);
    assert_eq!(m.run(10), Status::Running);
    assert_eq!(m.run(7), Status::Running);
}

#[test]
fn ill_formed_code_aborts() {
    let mut m = machine_new();
    let code = assemble(&mut m, vec![], vec![99]);
    m.start(code);
    assert_eq!(m.run(10), Status::Aborted);
}

#[test]
fn arity_error_on_missing_argument() {
    let mut m = machine_new();
    // A closure of one argument applied to none: referencing argument 0
    // raises the arity error, and with no handler the evaluation aborts.
    let fcode = assemble(&mut m, vec![], vec![OP_ARG, 0, OP_RETURN]);
    let fclos = m.mkclosure(fcode, NIL).unwrap();
    let code = assemble(
        &mut m,
        vec![fclos],
        vec![OP_QUOTE, 0, OP_APPLY, 0, OP_HALT],
    );
    m.start(code);
    assert_eq!(m.run(100), Status::Aborted);
}

#[test]
fn type_error_on_applying_a_non_closure() {
    let mut m = machine_new();
    let f = m.mkfix(3).unwrap();
    let code = assemble(&mut m, vec![f], vec![OP_QUOTE, 0, OP_APPLY, 0, OP_HALT]);
    m.start(code);
    assert_eq!(m.run(100), Status::Aborted);
}

#[test]
fn overflow_is_signalled_not_wrapped() {
    let mut m = machine_new();
    let big = m.mkfix(i32::MAX).unwrap();
    let one = m.mkfix(1).unwrap();
    let code = assemble(
        &mut m,
        vec![big, one],
        vec![OP_QUOTE, 0, OP_PUSH, OP_QUOTE, 1, OP_PLUS, OP_HALT],
    );
    m.start(code);
    assert_eq!(m.run(100), Status::Aborted);
}

#[test]
fn eq_is_identity_not_value_equality() {
    let mut m = machine_new();
    let a = m.mkfix(5).unwrap();
    let b = m.mkfix(5).unwrap();
    let code = assemble(
        &mut m,
        vec![a, b],
        vec![OP_QUOTE, 0, OP_PUSH, OP_QUOTE, 1, OP_EQ, OP_HALT],
    );
    m.start(code);
    assert_eq!(m.run(100), Status::Done);
    assert_eq!(m.acc, NIL);
    let code = assemble(
        &mut m,
        vec![a],
        vec![OP_QUOTE, 0, OP_PUSH, OP_QUOTE, 0, OP_EQ, OP_HALT],
    );
    m.start(code);
    assert_eq!(m.run(100), Status::Done);
    assert_eq!(m.acc, TRUE);
}
