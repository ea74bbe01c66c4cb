//! The memory core from outside: allocation, the collector, strings,
//! symbols, bindings, ports and the trace ring.

use ls9core::cell::ATOM_TAG;
use ls9core::cell::CONST_TAG;
use ls9core::cell::EOFMARK;
use ls9core::cell::NIL;
use ls9core::cell::T_FIXNUM;
use ls9core::cell::T_INPORT;
use ls9core::cell::T_OUTPORT;
use ls9core::cell::T_STRING;
use ls9core::machine::machine_new;
use ls9core::machine::Status;
use ls9core::pool::alloc_nodepool;
use ls9core::pool::NNODES;
use ls9core::trace::alloc_tracevec;
use ls9core::trace::clrtrace;
use ls9core::trace::gottrace;
use ls9core::trace::NTRACE;
use ls9core::vecpool::alloc_vecpool;
use ls9core::vecpool::NVCELLS;

#[test]
fn nodepool_starts_all_free() {
    let p = alloc_nodepool();
    assert_eq!(p.cars.len(), NNODES);
    assert_eq!(p.cdrs.len(), NNODES);
    assert_eq!(p.tags.len(), NNODES);
    assert_eq!(p.free.len(), NNODES);
}

#[test]
fn vecpool_starts_empty() {
    let v = alloc_vecpool();
    assert_eq!(v.cells.len(), NVCELLS);
    assert_eq!(v.freetop, 0);
}

#[test]
fn allocation_draws_distinct_slots_with_requested_fields() {
    let mut m = machine_new();
    let a = m.cons3(1, 2, 0).unwrap();
    let b = m.cons3(3, 4, ATOM_TAG).unwrap();
    let c = m.cons3(5, 6, CONST_TAG).unwrap();
    assert_ne!(a, b);
    assert_ne!(a, c);
    assert_ne!(b, c);
    assert_eq!(m.car_of(a), 1);
    assert_eq!(m.cdr_of(a), 2);
    assert_eq!(m.pool.get_tag(a), 0);
    assert_eq!(m.car_of(b), 3);
    assert_eq!(m.pool.get_tag(b), ATOM_TAG);
    assert_eq!(m.pool.get_tag(c), CONST_TAG);
}

#[test]
fn collection_keeps_rooted_data_and_reclaims_garbage() {
    let mut m = machine_new();
    // A rooted list (10 . (20 . NIL)) held on the value stack.
    let f20 = m.cons3(T_FIXNUM, 20, ATOM_TAG).unwrap();
    let t = m.cons3(f20, NIL, 0).unwrap();
    m.stack.push(t);
    let f10 = m.cons3(T_FIXNUM, 10, ATOM_TAG).unwrap();
    m.stack.push(f10);
    let keep = {
        let t2 = m.stack[0];
        let h = m.stack[1];
        let keep = m.cons3(h, t2, 0).unwrap();
        m.stack.pop();
        m.stack.pop();
        m.stack.push(keep);
        keep
    };
    let free_before_garbage = m.pool.free_count();
    // One hundred unreachable nodes.
    for i in 0..100 {
        m.cons3(i, i, 0).unwrap();
    }
    assert_eq!(m.pool.free_count(), free_before_garbage - 100);
    m.gc();
    // Everything unreachable is back on the free list...
    assert!(m.pool.free_count() >= free_before_garbage);
    // ...and the rooted structure is intact.
    let h = m.car_of(keep);
    assert_eq!(m.car_of(h), T_FIXNUM);
    assert_eq!(m.cdr_of(h), 10);
    let t2 = m.cdr_of(keep);
    let h2 = m.car_of(t2);
    assert_eq!(m.cdr_of(h2), 20);
    assert_eq!(m.cdr_of(t2), NIL);
}

#[test]
fn collection_reclaims_exactly_the_unreachable() {
    let mut m = machine_new();
    let free0 = m.pool.free_count();
    let a = m.cons3(7, 8, 0).unwrap();
    m.stack.push(a);
    for i in 0..10 {
        m.cons3(i, i, 0).unwrap();
    }
    m.gc();
    // The ten garbage nodes return; the rooted one stays allocated.
    assert_eq!(m.pool.free_count(), free0 - 1);
    assert_eq!(m.car_of(a), 7);
    assert_eq!(m.cdr_of(a), 8);
}

#[test]
fn list_round_trip_reproduces_fixnums_in_order() {
    let mut m = machine_new();
    let f1 = m.mkfix(1).unwrap();
    let f2 = m.mkfix(2).unwrap();
    let f3 = m.mkfix(3).unwrap();
    let l3 = m.cons3(f3, NIL, 0).unwrap();
    let l2 = m.cons3(f2, l3, 0).unwrap();
    let l1 = m.cons3(f1, l2, 0).unwrap();
    let mut out = Vec::new();
    let mut cur = l1;
    while cur != NIL {
        let h = m.car_of(cur);
        out.push(m.fixval(h));
        cur = m.cdr_of(cur);
    }
    assert_eq!(out, vec![1, 2, 3]);
}

#[test]
fn mkstr_builds_string_with_exact_contents() {
    let mut m = machine_new();
    let chars: Vec<i32> = vec![104, 105, 33];
    let s = m.mkstr(&chars).unwrap();
    assert_eq!(m.strlen(s), 3);
    assert!(m.vec_typep(s, T_STRING));
    assert!(m.name_eq(s, &chars));
    let other: Vec<i32> = vec![104, 105, 63];
    assert!(!m.name_eq(s, &other));
}

#[test]
fn strlen_rejects_non_vectors() {
    let mut m = machine_new();
    let f = m.mkfix(9).unwrap();
    assert_eq!(m.strlen(f), -1);
    assert_eq!(m.strlen(NIL), -1);
}

#[test]
fn intern_returns_same_cell_for_equal_names() {
    let mut m = machine_new();
    let name: Vec<i32> = vec![102, 111, 111];
    let s1 = m.intern(&name).unwrap();
    let s2 = m.intern(&name).unwrap();
    assert_eq!(s1, s2);
    let other: Vec<i32> = vec![98, 97, 114];
    let s3 = m.intern(&other).unwrap();
    assert_ne!(s1, s3);
}

#[test]
fn assq_finds_the_entry_by_identity() {
    let mut m = machine_new();
    let k1 = m.intern(&vec![97]).unwrap();
    let k2 = m.intern(&vec![98]).unwrap();
    let b1 = m.defglob(k1, 11).unwrap();
    let b2 = m.defglob(k2, 22).unwrap();
    assert_ne!(b1, b2);
    let e = m.assq(k1, m.glob);
    assert_ne!(e, NIL);
    assert_eq!(m.car_of(e), k1);
    assert_eq!(m.car_of(m.cdr_of(e)), 11);
    let missing = m.intern(&vec![99]).unwrap();
    assert_eq!(m.assq(missing, m.glob), NIL);
}

#[test]
fn bindset_rebinds_an_existing_binding() {
    let mut m = machine_new();
    let k = m.intern(&vec![118]).unwrap();
    let boxc = m.defglob(k, 5).unwrap();
    let r = m.bindset(k, 77);
    assert_eq!(r, k);
    assert_eq!(m.car_of(boxc), 77);
    let unknown = m.intern(&vec![119]).unwrap();
    assert_eq!(m.bindset(unknown, 1), NIL);
}

#[test]
fn trace_ring_clears_and_detects_entries() {
    let mut t = alloc_tracevec();
    assert!(!gottrace(&t));
    t.record(42);
    assert!(gottrace(&t));
    clrtrace(&mut t);
    assert!(!gottrace(&t));
    // FIFO overwrite: one more than the capacity wraps to the start.
    let mut t2 = alloc_tracevec();
    for i in 0..(NTRACE as i32 + 1) {
        t2.record(i);
    }
    assert_eq!(t2.trace[0], NTRACE as i32);
    assert_eq!(t2.trace[1], 1);
}

#[test]
fn ports_read_write_and_hit_eof() {
    let mut m = machine_new();
    assert!(m.feed_input(0, &vec![104, 105]));
    assert_eq!(m.readc(), 104);
    assert_eq!(m.readc(), 105);
    assert_eq!(m.readc(), EOFMARK);
    assert_eq!(m.writec(88), 88);
    assert_eq!(m.port_buf(1), &vec![88]);
}

#[test]
fn open_port_claims_a_slot_and_close_all_spares_locked() {
    let mut m = machine_new();
    let a = m.open_port(T_OUTPORT).unwrap();
    let pn = m.cdr_of(a) as usize;
    assert!(m.ports[pn].used);
    assert!(!m.ports[pn].locked);
    assert!(m.set_outport(pn));
    assert_eq!(m.writec(65), 65);
    assert_eq!(m.port_buf(pn), &vec![65]);
    m.close_all_ports();
    assert!(!m.ports[pn].used);
    // The console triple survives.
    assert!(m.ports[0].used && m.ports[1].used && m.ports[2].used);
}

#[test]
fn port_table_exhaustion_is_a_recoverable_resource_error() {
    let mut m = machine_new();
    let mut opened = 0;
    loop {
        match m.open_port(T_INPORT) {
            Ok(_) => opened += 1,
            Err(f) => {
                assert_eq!(f, ls9core::machine::Fault::PortsExhausted);
                break;
            }
        }
    }
    assert_eq!(opened, 17);
    assert_eq!(m.status, Status::Running);
}

#[test]
fn report_writes_the_diagnostic_to_the_error_port() {
    let mut m = machine_new();
    let msg: Vec<i32> = vec![98, 97, 100];
    m.report(&msg, 123);
    assert_eq!(m.port_buf(2), &msg);
    assert_eq!(m.erritem, 123);
    assert_eq!(m.status, Status::Running);
}

#[test]
fn fatal_stops_the_machine_with_a_diagnostic() {
    let mut m = machine_new();
    let msg: Vec<i32> = vec![100, 105, 101];
    m.fatal(&msg);
    assert_eq!(m.status, Status::Fatal);
    assert_eq!(m.port_buf(2), &msg);
}

#[test]
fn longjmp_without_catch_aborts() {
    let mut m = machine_new();
    let tag = m.intern(&vec![116]).unwrap();
    assert!(!m.longjmp(tag, 42));
    assert_eq!(m.status, Status::Aborted);
    assert_eq!(m.erritem, 42);
}

#[test]
fn error_without_handler_aborts_with_datum() {
    let mut m = machine_new();
    let tag = m.s_div0;
    let msg: Vec<i32> = vec![101];
    let f = m.mkfix(7).unwrap();
    m.stack.push(f);
    m.error(tag, &msg, f);
    assert_eq!(m.status, Status::Aborted);
    assert_eq!(m.erritem, f);
    assert_eq!(m.port_buf(2), &msg);
}

#[test]
fn compaction_drops_dead_regions_and_preserves_live_content() {
    let mut m = machine_new();
    let dead_chars: Vec<i32> = vec![97, 98, 99];
    let _dead = m.mkstr(&dead_chars).unwrap();
    let live_chars: Vec<i32> = vec![120, 121, 122, 119];
    let live = m.mkstr(&live_chars).unwrap();
    m.stack.push(live);
    let ft_before = m.vpool.freetop;
    m.gcv();
    // The unreachable string's region (three cells plus two header
    // cells) is gone; the rooted one was slid down intact.
    assert_eq!(m.vpool.freetop, ft_before - 5);
    assert_eq!(m.strlen(live), 4);
    assert!(m.name_eq(live, &live_chars));
}

#[test]
fn compaction_packs_survivors_in_address_order() {
    let mut m = machine_new();
    let c1: Vec<i32> = vec![49];
    let c2: Vec<i32> = vec![50, 50];
    let c3: Vec<i32> = vec![51, 51, 51];
    let s1 = m.mkstr(&c1).unwrap();
    m.stack.push(s1);
    let _gap = m.mkstr(&vec![0, 0, 0, 0, 0, 0, 0]).unwrap();
    let s2 = m.mkstr(&c2).unwrap();
    m.stack.push(s2);
    let _gap2 = m.mkstr(&vec![1, 1, 1]).unwrap();
    let s3 = m.mkstr(&c3).unwrap();
    m.stack.push(s3);
    m.gcv();
    assert!(m.name_eq(s1, &c1));
    assert!(m.name_eq(s2, &c2));
    assert!(m.name_eq(s3, &c3));
    // Address order is kept and the packed regions touch one another.
    let o1 = m.cdr_of(s1) as usize;
    let o2 = m.cdr_of(s2) as usize;
    let o3 = m.cdr_of(s3) as usize;
    assert_eq!(o2, o1 + 1 + 2);
    assert_eq!(o3, o2 + 2 + 2);
}
