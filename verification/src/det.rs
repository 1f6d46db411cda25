//! A run is determined by its start: with every read answered from the
//! host's memory, an instruction's outcome does not depend on anything
//! else.

use vstd::prelude::*;

use crate::cpu::{ei_tick, sem_int, sem_step};
use crate::det_index::{det_index_low_00, det_index_low_10, det_index_low_20, det_index_low_30, det_index_loads_40, det_index_loads_50, det_index_loads_60, det_index_loads_70, det_index_alu_80, det_index_alu_a0, det_index_high_c0, det_index_high_d0, det_index_high_e0, det_index_high_f0, det_ddcb_0, det_ddcb_1, det_ddcb_2, det_ddcb_3};
use crate::det_prefixed::{det_cb_0, det_cb_1, det_cb_2, det_cb_3, det_ed_0, det_ed_1, det_ed_2, det_ed_3, det_ed_4, det_ed_5, det_ed_6, det_ed_7, det_ed_8, det_ed_9, det_ed_10, det_ed_11, det_ed_12, det_ed_13, det_ed_14, det_ed_15, det_ed_16};
use crate::dispatch::{extends, is_prefix, lemma_ops_base, lemma_ops_cb, lemma_ops_ed, sem_base, sem_cb, sem_decode, sem_ed, sem_main};
use crate::index_dispatch::{
    lemma_prefix_adds_four, names_index, lemma_ops_run, lemma_run_ed, lemma_run_limit, lemma_run_other, lemma_run_prefix, sem_index_op, sem_index_run,
    STRAY_LIMIT,
};
use crate::processor::{fetched, rd, BusKind, BusOp, Machine};

verus! {

/// The memory a host starting from `mem` holds after the exchanges
/// `ops[n..i]`: the writes among them applied in order.
pub open spec fn mem_at(mem: Seq<u8>, ops: Seq<BusOp>, n: int, i: int) -> Seq<u8>
    decreases i - n,
{
    if i <= n {
        mem
    } else {
        let before = mem_at(mem, ops, n, i - 1);
        let op = ops[i - 1];
        if op.kind == BusKind::MemWrite {
            before.update(op.addr as int, op.value)
        } else {
            before
        }
    }
}

/// Exchange `i` was answered as a host that started from `mem` and `port`
/// at exchange `n` answers it.
pub open spec fn read_ok(mem: Seq<u8>, port: u8, ops: Seq<BusOp>, n: int, i: int) -> bool {
    let op = ops[i];
    &&& op.kind == BusKind::MemRead ==> op.value == mem_at(mem, ops, n, i)[op.addr as int]
    &&& op.kind == BusKind::PortRead ==> op.value == port
}

/// Exchanges `n..k` were all answered that way.
pub open spec fn answered_upto(mem: Seq<u8>, port: u8, ops: Seq<BusOp>, n: int, k: int) -> bool
    decreases k - n,
{
    if k <= n {
        true
    } else {
        answered_upto(mem, port, ops, n, k - 1) && read_ok(mem, port, ops, n, k - 1)
    }
}

#[verifier::rlimit(100)]
pub(crate) proof fn det_base_0(m: Machine, op: u8, prefixed: bool, rv1: Seq<u8>, rv2: Seq<u8>, mem: Seq<u8>, port: u8)
    requires
        0x00 <= op < 0x20,
        answered_upto(mem, port, sem_base(m, op, prefixed, rv1).0.ops, m.ops.len() as int, sem_base(m, op, prefixed, rv1).0.ops.len() as int),
        answered_upto(mem, port, sem_base(m, op, prefixed, rv2).0.ops, m.ops.len() as int, sem_base(m, op, prefixed, rv2).0.ops.len() as int),
    ensures
        sem_base(m, op, prefixed, rv1) == sem_base(m, op, prefixed, rv2),
{
    reveal_with_fuel(answered_upto, 6);
    reveal_with_fuel(mem_at, 6);
}

#[verifier::rlimit(100)]
pub(crate) proof fn det_base_1(m: Machine, op: u8, prefixed: bool, rv1: Seq<u8>, rv2: Seq<u8>, mem: Seq<u8>, port: u8)
    requires
        0x20 <= op < 0x40,
        answered_upto(mem, port, sem_base(m, op, prefixed, rv1).0.ops, m.ops.len() as int, sem_base(m, op, prefixed, rv1).0.ops.len() as int),
        answered_upto(mem, port, sem_base(m, op, prefixed, rv2).0.ops, m.ops.len() as int, sem_base(m, op, prefixed, rv2).0.ops.len() as int),
    ensures
        sem_base(m, op, prefixed, rv1) == sem_base(m, op, prefixed, rv2),
{
    reveal_with_fuel(answered_upto, 6);
    reveal_with_fuel(mem_at, 6);
}

#[verifier::rlimit(100)]
pub(crate) proof fn det_base_2(m: Machine, op: u8, prefixed: bool, rv1: Seq<u8>, rv2: Seq<u8>, mem: Seq<u8>, port: u8)
    requires
        0x40 <= op < 0x60,
        answered_upto(mem, port, sem_base(m, op, prefixed, rv1).0.ops, m.ops.len() as int, sem_base(m, op, prefixed, rv1).0.ops.len() as int),
        answered_upto(mem, port, sem_base(m, op, prefixed, rv2).0.ops, m.ops.len() as int, sem_base(m, op, prefixed, rv2).0.ops.len() as int),
    ensures
        sem_base(m, op, prefixed, rv1) == sem_base(m, op, prefixed, rv2),
{
    reveal_with_fuel(answered_upto, 6);
    reveal_with_fuel(mem_at, 6);
}

#[verifier::rlimit(100)]
pub(crate) proof fn det_base_3(m: Machine, op: u8, prefixed: bool, rv1: Seq<u8>, rv2: Seq<u8>, mem: Seq<u8>, port: u8)
    requires
        0x60 <= op < 0x80,
        answered_upto(mem, port, sem_base(m, op, prefixed, rv1).0.ops, m.ops.len() as int, sem_base(m, op, prefixed, rv1).0.ops.len() as int),
        answered_upto(mem, port, sem_base(m, op, prefixed, rv2).0.ops, m.ops.len() as int, sem_base(m, op, prefixed, rv2).0.ops.len() as int),
    ensures
        sem_base(m, op, prefixed, rv1) == sem_base(m, op, prefixed, rv2),
{
    reveal_with_fuel(answered_upto, 6);
    reveal_with_fuel(mem_at, 6);
}

#[verifier::rlimit(100)]
pub(crate) proof fn det_base_4(m: Machine, op: u8, prefixed: bool, rv1: Seq<u8>, rv2: Seq<u8>, mem: Seq<u8>, port: u8)
    requires
        0x80 <= op < 0xA0,
        answered_upto(mem, port, sem_base(m, op, prefixed, rv1).0.ops, m.ops.len() as int, sem_base(m, op, prefixed, rv1).0.ops.len() as int),
        answered_upto(mem, port, sem_base(m, op, prefixed, rv2).0.ops, m.ops.len() as int, sem_base(m, op, prefixed, rv2).0.ops.len() as int),
    ensures
        sem_base(m, op, prefixed, rv1) == sem_base(m, op, prefixed, rv2),
{
    reveal_with_fuel(answered_upto, 6);
    reveal_with_fuel(mem_at, 6);
}

#[verifier::rlimit(100)]
pub(crate) proof fn det_base_5(m: Machine, op: u8, prefixed: bool, rv1: Seq<u8>, rv2: Seq<u8>, mem: Seq<u8>, port: u8)
    requires
        0xA0 <= op < 0xC0,
        answered_upto(mem, port, sem_base(m, op, prefixed, rv1).0.ops, m.ops.len() as int, sem_base(m, op, prefixed, rv1).0.ops.len() as int),
        answered_upto(mem, port, sem_base(m, op, prefixed, rv2).0.ops, m.ops.len() as int, sem_base(m, op, prefixed, rv2).0.ops.len() as int),
    ensures
        sem_base(m, op, prefixed, rv1) == sem_base(m, op, prefixed, rv2),
{
    reveal_with_fuel(answered_upto, 6);
    reveal_with_fuel(mem_at, 6);
}

#[verifier::rlimit(100)]
pub(crate) proof fn det_base_6(m: Machine, op: u8, prefixed: bool, rv1: Seq<u8>, rv2: Seq<u8>, mem: Seq<u8>, port: u8)
    requires
        0xC0 <= op < 0xE0,
        answered_upto(mem, port, sem_base(m, op, prefixed, rv1).0.ops, m.ops.len() as int, sem_base(m, op, prefixed, rv1).0.ops.len() as int),
        answered_upto(mem, port, sem_base(m, op, prefixed, rv2).0.ops, m.ops.len() as int, sem_base(m, op, prefixed, rv2).0.ops.len() as int),
    ensures
        sem_base(m, op, prefixed, rv1) == sem_base(m, op, prefixed, rv2),
{
    reveal_with_fuel(answered_upto, 6);
    reveal_with_fuel(mem_at, 6);
}

#[verifier::rlimit(100)]
pub(crate) proof fn det_base_7(m: Machine, op: u8, prefixed: bool, rv1: Seq<u8>, rv2: Seq<u8>, mem: Seq<u8>, port: u8)
    requires
        op >= 0xE0,
        answered_upto(mem, port, sem_base(m, op, prefixed, rv1).0.ops, m.ops.len() as int, sem_base(m, op, prefixed, rv1).0.ops.len() as int),
        answered_upto(mem, port, sem_base(m, op, prefixed, rv2).0.ops, m.ops.len() as int, sem_base(m, op, prefixed, rv2).0.ops.len() as int),
    ensures
        sem_base(m, op, prefixed, rv1) == sem_base(m, op, prefixed, rv2),
{
    reveal_with_fuel(answered_upto, 6);
    reveal_with_fuel(mem_at, 6);
}


/// Every exchange from `n` to `k` that was answered is answered at `i`.
proof fn lemma_answered_at(mem: Seq<u8>, port: u8, ops: Seq<BusOp>, n: int, k: int, i: int)
    requires
        answered_upto(mem, port, ops, n, k),
        n <= i < k,
    ensures
        read_ok(mem, port, ops, n, i),
    decreases k - n,
{
    if i < k - 1 {
        lemma_answered_at(mem, port, ops, n, k - 1, i);
    }
}

/// A read at `n` writes nothing, so the memory after it is the memory
/// before it.
proof fn lemma_mem_at_shift(mem: Seq<u8>, ops: Seq<BusOp>, n: int, i: int)
    requires
        n < i,
        0 <= n < ops.len(),
        ops[n].kind != BusKind::MemWrite,
    ensures
        mem_at(mem, ops, n + 1, i) == mem_at(mem, ops, n, i),
    decreases i - n,
{
    reveal_with_fuel(mem_at, 2);
    if i > n + 1 {
        lemma_mem_at_shift(mem, ops, n, i - 1);
    }
}

/// Answers from `n` on, with no write at `n`, are answers from `n + 1` on.
proof fn lemma_answered_shift(mem: Seq<u8>, port: u8, ops: Seq<BusOp>, n: int, k: int)
    requires
        answered_upto(mem, port, ops, n, k),
        0 <= n < k,
        n < ops.len(),
        ops[n].kind != BusKind::MemWrite,
    ensures
        answered_upto(mem, port, ops, n + 1, k),
    decreases k - n,
{
    if k > n + 1 {
        lemma_answered_shift(mem, port, ops, n, k - 1);
        lemma_mem_at_shift(mem, ops, n, k - 1);
    }
}

/// A read first at `n` was answered with the memory's byte, and the rest
/// are answered from `n + 1` on.
proof fn lemma_first_read(mem: Seq<u8>, port: u8, ops: Seq<BusOp>, n: int, addr: u16, v: u8)
    requires
        answered_upto(mem, port, ops, n, ops.len() as int),
        0 <= n < ops.len(),
        ops[n] == rd(addr, v),
    ensures
        v == mem[addr as int],
        answered_upto(mem, port, ops, n + 1, ops.len() as int),
{
    lemma_answered_at(mem, port, ops, n, ops.len() as int, n);
    lemma_answered_shift(mem, port, ops, n, ops.len() as int);
}

/// Answers do not depend on exchanges after the last one looked at.
pub proof fn lemma_upto_prefix(mem: Seq<u8>, port: u8, a: Seq<BusOp>, b: Seq<BusOp>, n: int, k: int)
    requires
        0 <= n <= k <= a.len() <= b.len(),
        forall|i: int| 0 <= i < a.len() ==> b[i] == a[i],
    ensures
        answered_upto(mem, port, b, n, k) == answered_upto(mem, port, a, n, k),
        mem_at(mem, b, n, k) == mem_at(mem, a, n, k),
    decreases k - n,
{
    if k > n {
        lemma_upto_prefix(mem, port, a, b, n, k - 1);
        assert(b[k - 1] == a[k - 1]);
        assert(read_ok(mem, port, b, n, k - 1) == read_ok(mem, port, a, n, k - 1));
    }
}

proof fn lemma_extends_trans(a: Seq<BusOp>, b: Seq<BusOp>, c: Seq<BusOp>)
    requires
        extends(a, b),
        extends(b, c),
    ensures
        extends(a, c),
{
    assert forall|i: int| 0 <= i < a.len() implies #[trigger] c[i] == a[i] by {
        assert(c[i] == b[i]);
    }
}

/// Every exchange of `ops` from `n` to its end was answered.
pub open spec fn done(mem: Seq<u8>, port: u8, ops: Seq<BusOp>, n: int) -> bool {
    answered_upto(mem, port, ops, n, ops.len() as int)
}

proof fn det_base(m: Machine, op: u8, prefixed: bool, rv1: Seq<u8>, rv2: Seq<u8>, mem: Seq<u8>, port: u8)
    requires
        done(mem, port, sem_base(m, op, prefixed, rv1).0.ops, m.ops.len() as int),
        done(mem, port, sem_base(m, op, prefixed, rv2).0.ops, m.ops.len() as int),
    ensures
        sem_base(m, op, prefixed, rv1) == sem_base(m, op, prefixed, rv2),
{
    if op < 0x20 {
        det_base_0(m, op, prefixed, rv1, rv2, mem, port);
    } else if op < 0x40 {
        det_base_1(m, op, prefixed, rv1, rv2, mem, port);
    } else if op < 0x60 {
        det_base_2(m, op, prefixed, rv1, rv2, mem, port);
    } else if op < 0x80 {
        det_base_3(m, op, prefixed, rv1, rv2, mem, port);
    } else if op < 0xA0 {
        det_base_4(m, op, prefixed, rv1, rv2, mem, port);
    } else if op < 0xC0 {
        det_base_5(m, op, prefixed, rv1, rv2, mem, port);
    } else if op < 0xE0 {
        det_base_6(m, op, prefixed, rv1, rv2, mem, port);
    } else {
        det_base_7(m, op, prefixed, rv1, rv2, mem, port);
    }
}

proof fn det_cb(m: Machine, sub: u8, rv1: Seq<u8>, rv2: Seq<u8>, mem: Seq<u8>, port: u8)
    requires
        done(mem, port, sem_cb(m, sub, rv1).0.ops, m.ops.len() as int),
        done(mem, port, sem_cb(m, sub, rv2).0.ops, m.ops.len() as int),
    ensures
        sem_cb(m, sub, rv1) == sem_cb(m, sub, rv2),
{
    if sub < 0x40 {
        det_cb_0(m, sub, rv1, rv2, mem, port);
    } else if sub < 0x80 {
        det_cb_1(m, sub, rv1, rv2, mem, port);
    } else if sub < 0xC0 {
        det_cb_2(m, sub, rv1, rv2, mem, port);
    } else {
        det_cb_3(m, sub, rv1, rv2, mem, port);
    }
}

proof fn det_ed(m: Machine, sub: u8, rv1: Seq<u8>, rv2: Seq<u8>, mem: Seq<u8>, port: u8)
    requires
        done(mem, port, sem_ed(m, sub, rv1).0.ops, m.ops.len() as int),
        done(mem, port, sem_ed(m, sub, rv2).0.ops, m.ops.len() as int),
    ensures
        sem_ed(m, sub, rv1) == sem_ed(m, sub, rv2),
{
    if 0x40 <= sub && sub < 0x48 {
        det_ed_0(m, sub, rv1, rv2, mem, port);
    } else if 0x48 <= sub && sub < 0x50 {
        det_ed_1(m, sub, rv1, rv2, mem, port);
    } else if 0x50 <= sub && sub < 0x58 {
        det_ed_2(m, sub, rv1, rv2, mem, port);
    } else if 0x58 <= sub && sub < 0x60 {
        det_ed_3(m, sub, rv1, rv2, mem, port);
    } else if 0x60 <= sub && sub < 0x68 {
        det_ed_4(m, sub, rv1, rv2, mem, port);
    } else if 0x68 <= sub && sub < 0x70 {
        det_ed_5(m, sub, rv1, rv2, mem, port);
    } else if 0x70 <= sub && sub < 0x78 {
        det_ed_6(m, sub, rv1, rv2, mem, port);
    } else if 0x78 <= sub && sub < 0x80 {
        det_ed_7(m, sub, rv1, rv2, mem, port);
    } else if 0xA0 <= sub && sub < 0xA4 {
        det_ed_8(m, sub, rv1, rv2, mem, port);
    } else if 0xA4 <= sub && sub < 0xA8 {
        det_ed_9(m, sub, rv1, rv2, mem, port);
    } else if 0xA8 <= sub && sub < 0xAC {
        det_ed_10(m, sub, rv1, rv2, mem, port);
    } else if 0xAC <= sub && sub < 0xB0 {
        det_ed_11(m, sub, rv1, rv2, mem, port);
    } else if 0xB0 <= sub && sub < 0xB4 {
        det_ed_12(m, sub, rv1, rv2, mem, port);
    } else if 0xB4 <= sub && sub < 0xB8 {
        det_ed_13(m, sub, rv1, rv2, mem, port);
    } else if 0xB8 <= sub && sub < 0xBC {
        det_ed_14(m, sub, rv1, rv2, mem, port);
    } else if 0xBC <= sub && sub < 0xC0 {
        det_ed_15(m, sub, rv1, rv2, mem, port);
    } else {
        det_ed_16(m, sub, rv1, rv2, mem, port);
    }
}

proof fn det_index_op(m: Machine, prefix: u8, sub: u8, rv1: Seq<u8>, rv2: Seq<u8>, mem: Seq<u8>, port: u8)
    requires
        sub != 0xDD && sub != 0xED && sub != 0xFD,
        done(mem, port, sem_index_op(m, prefix, sub, rv1).0.ops, m.ops.len() as int),
        done(mem, port, sem_index_op(m, prefix, sub, rv2).0.ops, m.ops.len() as int),
    ensures
        sem_index_op(m, prefix, sub, rv1) == sem_index_op(m, prefix, sub, rv2),
{
    if done(mem, port, sem_base(m, sub, true, rv1).0.ops, m.ops.len() as int) && done(
        mem,
        port,
        sem_base(m, sub, true, rv2).0.ops,
        m.ops.len() as int,
    ) {
        det_base(m, sub, true, rv1, rv2, mem, port);
    }
    if sub == 0xCB {
        if rv1[1] < 0x40 {
            det_ddcb_0(m, prefix, rv1, rv2, mem, port);
        } else if rv1[1] < 0x80 {
            det_ddcb_1(m, prefix, rv1, rv2, mem, port);
        } else if rv1[1] < 0xC0 {
            det_ddcb_2(m, prefix, rv1, rv2, mem, port);
        } else {
            det_ddcb_3(m, prefix, rv1, rv2, mem, port);
        }
    } else if sub < 0x10 {
        det_index_low_00(m, prefix, sub, rv1, rv2, mem, port);
    } else if sub < 0x20 {
        det_index_low_10(m, prefix, sub, rv1, rv2, mem, port);
    } else if sub < 0x30 {
        det_index_low_20(m, prefix, sub, rv1, rv2, mem, port);
    } else if sub < 0x40 {
        det_index_low_30(m, prefix, sub, rv1, rv2, mem, port);
    } else if sub < 0x50 {
        det_index_loads_40(m, prefix, sub, rv1, rv2, mem, port);
    } else if sub < 0x60 {
        det_index_loads_50(m, prefix, sub, rv1, rv2, mem, port);
    } else if sub < 0x70 {
        det_index_loads_60(m, prefix, sub, rv1, rv2, mem, port);
    } else if sub < 0x80 {
        det_index_loads_70(m, prefix, sub, rv1, rv2, mem, port);
    } else if sub < 0xA0 {
        det_index_alu_80(m, prefix, sub, rv1, rv2, mem, port);
    } else if sub < 0xC0 {
        det_index_alu_a0(m, prefix, sub, rv1, rv2, mem, port);
    } else if sub < 0xD0 {
        det_index_high_c0(m, prefix, sub, rv1, rv2, mem, port);
    } else if sub < 0xE0 {
        det_index_high_d0(m, prefix, sub, rv1, rv2, mem, port);
    } else if sub < 0xF0 {
        det_index_high_e0(m, prefix, sub, rv1, rv2, mem, port);
    } else if true {
        det_index_high_f0(m, prefix, sub, rv1, rv2, mem, port);
    }
}

proof fn det_run(m: Machine, prefix: u8, sub: u8, rv1: Seq<u8>, rv2: Seq<u8>, mem: Seq<u8>, port: u8, stray: u32)
    requires
        done(mem, port, sem_index_run(m, prefix, sub, rv1, stray).0.ops, m.ops.len() as int),
        done(mem, port, sem_index_run(m, prefix, sub, rv2, stray).0.ops, m.ops.len() as int),
    ensures
        sem_index_run(m, prefix, sub, rv1, stray) == sem_index_run(m, prefix, sub, rv2, stray),
    decreases STRAY_LIMIT - stray,
{
    let n = m.ops.len() as int;
    if sub == 0xDD || sub == 0xFD {
        if stray + 4 > STRAY_LIMIT {
            lemma_run_limit(m, prefix, sub, rv1, stray);
            lemma_run_limit(m, prefix, sub, rv2, stray);
        } else {
            lemma_run_prefix(m, prefix, sub, rv1, stray);
            lemma_run_prefix(m, prefix, sub, rv2, stray);
            let f1 = fetched(m, rv1[0]);
            let f2 = fetched(m, rv2[0]);
            let s4 = (stray + 4) as u32;
            lemma_ops_run(f1, sub, rv1[0], rv1.skip(1), s4);
            lemma_ops_run(f2, sub, rv2[0], rv2.skip(1), s4);
            let o1 = sem_index_run(f1, sub, rv1[0], rv1.skip(1), s4).0.ops;
            let o2 = sem_index_run(f2, sub, rv2[0], rv2.skip(1), s4).0.ops;
            assert(o1[n] == f1.ops[n]);
            assert(o2[n] == f2.ops[n]);
            lemma_first_read(mem, port, o1, n, m.st.pc, rv1[0]);
            lemma_first_read(mem, port, o2, n, m.st.pc, rv2[0]);
            det_run(f1, sub, rv1[0], rv1.skip(1), rv2.skip(1), mem, port, s4);
        }
    } else if sub == 0xED {
        lemma_run_ed(m, prefix, rv1, stray);
        lemma_run_ed(m, prefix, rv2, stray);
        let f1 = fetched(m, rv1[0]);
        let f2 = fetched(m, rv2[0]);
        lemma_ops_ed(f1, rv1[0], rv1.skip(1));
        lemma_ops_ed(f2, rv2[0], rv2.skip(1));
        let o1 = sem_ed(f1, rv1[0], rv1.skip(1)).0.ops;
        let o2 = sem_ed(f2, rv2[0], rv2.skip(1)).0.ops;
        assert(o1[n] == f1.ops[n]);
        assert(o2[n] == f2.ops[n]);
        lemma_first_read(mem, port, o1, n, m.st.pc, rv1[0]);
        lemma_first_read(mem, port, o2, n, m.st.pc, rv2[0]);
        det_ed(f1, rv1[0], rv1.skip(1), rv2.skip(1), mem, port);
    } else {
        lemma_run_other(m, prefix, sub, rv1, stray);
        lemma_run_other(m, prefix, sub, rv2, stray);
        det_index_op(m, prefix, sub, rv1, rv2, mem, port);
    }
}

/// An instruction only adds to the bus traffic of its opcode fetch.
proof fn lemma_ops_main(f: Machine, op: u8, rest: Seq<u8>)
    ensures
        extends(f.ops, sem_main(f, op, rest).0.ops),
{
    lemma_ops_base(f, op, false, rest);
    let g = fetched(f, rest[0]);
    lemma_ops_cb(g, rest[0], rest.skip(1));
    lemma_ops_ed(g, rest[0], rest.skip(1));
    if op == 0xDD || op == 0xFD {
        lemma_ops_run(g, op, rest[0], rest.skip(1), 0);
    }
    assert(extends(f.ops, g.ops));
    if op == 0xCB {
        lemma_extends_trans(f.ops, g.ops, sem_cb(g, rest[0], rest.skip(1)).0.ops);
    } else if op == 0xED {
        lemma_extends_trans(f.ops, g.ops, sem_ed(g, rest[0], rest.skip(1)).0.ops);
    } else if op == 0xDD || op == 0xFD {
        lemma_extends_trans(f.ops, g.ops, sem_index_run(g, op, rest[0], rest.skip(1), 0).0.ops);
    }
}

proof fn det_main(f: Machine, op: u8, rest1: Seq<u8>, rest2: Seq<u8>, mem: Seq<u8>, port: u8)
    requires
        done(mem, port, sem_main(f, op, rest1).0.ops, f.ops.len() as int),
        done(mem, port, sem_main(f, op, rest2).0.ops, f.ops.len() as int),
    ensures
        sem_main(f, op, rest1) == sem_main(f, op, rest2),
{
    let n = f.ops.len() as int;
    if op == 0xCB || op == 0xED || op == 0xDD || op == 0xFD {
        let g1 = fetched(f, rest1[0]);
        let g2 = fetched(f, rest2[0]);
        lemma_ops_cb(g1, rest1[0], rest1.skip(1));
        lemma_ops_cb(g2, rest2[0], rest2.skip(1));
        lemma_ops_ed(g1, rest1[0], rest1.skip(1));
        lemma_ops_ed(g2, rest2[0], rest2.skip(1));
        if op == 0xDD || op == 0xFD {
            lemma_ops_run(g1, op, rest1[0], rest1.skip(1), 0);
            lemma_ops_run(g2, op, rest2[0], rest2.skip(1), 0);
        }
        let o1 = sem_main(f, op, rest1).0.ops;
        let o2 = sem_main(f, op, rest2).0.ops;
        assert(o1[n] == g1.ops[n]);
        assert(o2[n] == g2.ops[n]);
        lemma_first_read(mem, port, o1, n, f.st.pc, rest1[0]);
        lemma_first_read(mem, port, o2, n, f.st.pc, rest2[0]);
        if op == 0xCB {
            det_cb(g1, rest1[0], rest1.skip(1), rest2.skip(1), mem, port);
        } else if op == 0xED {
            det_ed(g1, rest1[0], rest1.skip(1), rest2.skip(1), mem, port);
        } else {
            det_run(g1, op, rest1[0], rest1.skip(1), rest2.skip(1), mem, port, 0);
        }
    } else {
        det_base(f, op, false, rest1, rest2, mem, port);
    }
}

proof fn det_decode(m: Machine, rv1: Seq<u8>, rv2: Seq<u8>, mem: Seq<u8>, port: u8)
    requires
        done(mem, port, sem_decode(m, rv1).0.ops, m.ops.len() as int),
        done(mem, port, sem_decode(m, rv2).0.ops, m.ops.len() as int),
    ensures
        sem_decode(m, rv1) == sem_decode(m, rv2),
{
    let n = m.ops.len() as int;
    let m0 = Machine { bytes: Seq::empty(), ..m };
    let f1 = fetched(m0, rv1[0]);
    let f2 = fetched(m0, rv2[0]);
    lemma_ops_main(f1, rv1[0], rv1.skip(1));
    lemma_ops_main(f2, rv2[0], rv2.skip(1));
    let o1 = sem_decode(m, rv1).0.ops;
    let o2 = sem_decode(m, rv2).0.ops;
    assert(o1[n] == f1.ops[n]);
    assert(o2[n] == f2.ops[n]);
    lemma_first_read(mem, port, o1, n, m.st.pc, rv1[0]);
    lemma_first_read(mem, port, o2, n, m.st.pc, rv2[0]);
    det_main(f1, rv1[0], rv1.skip(1), rv2.skip(1), mem, port);
}

#[verifier::rlimit(60)]
proof fn det_int(m: Machine, rv1: Seq<u8>, rv2: Seq<u8>, mem: Seq<u8>, port: u8)
    requires
        done(mem, port, sem_int(m, rv1).0.ops, m.ops.len() as int),
        done(mem, port, sem_int(m, rv2).0.ops, m.ops.len() as int),
    ensures
        sem_int(m, rv1) == sem_int(m, rv2),
{
    reveal_with_fuel(answered_upto, 6);
    reveal_with_fuel(mem_at, 6);
}

/// An instruction boundary is determined by the machine it starts from and
/// by the host's memory and port value: whatever bytes come back, as long as
/// every read is answered from that memory (the boundary's earlier writes
/// applied) or that port value, the boundary ends in the same machine with
/// the same result.
pub proof fn lemma_boundary_determined(m: Machine, rv1: Seq<u8>, rv2: Seq<u8>, mem: Seq<u8>, port: u8)
    requires
        answered_upto(mem, port, sem_step(m, rv1).0.ops, m.ops.len() as int, sem_step(m, rv1).0.ops.len() as int),
        answered_upto(mem, port, sem_step(m, rv2).0.ops, m.ops.len() as int, sem_step(m, rv2).0.ops.len() as int),
    ensures
        sem_step(m, rv1) == sem_step(m, rv2),
{
    if !m.st.reset_pending && !m.st.non_maskable_interrupt_pending {
        if crate::cpu::can_accept_int(m.st) {
            det_int(m, rv1, rv2, mem, port);
        } else if !m.st.halted {
            let r1 = sem_decode(m, rv1);
            let r2 = sem_decode(m, rv2);
            match r1.1 {
                Ok(_) => {},
                Err(_) => {},
            }
            assert(sem_step(m, rv1).0.ops == r1.0.ops || sem_step(m, rv1).0.ops == ei_tick(m.st, r1.0).ops);
            assert(ei_tick(m.st, r1.0).ops == r1.0.ops);
            assert(ei_tick(m.st, r2.0).ops == r2.0.ops);
            det_decode(m, rv1, rv2, mem, port);
        }
    }
}

/// A DD/FD prefix before a base instruction that names no index register
/// adds only its 4 T-states, also between two CPUs that start in the same
/// machine state with hosts holding the same memory and port value: the
/// prefixed instruction ends where the unprefixed one does, 4 T-states
/// later, whatever bytes each host returned.
pub proof fn lemma_prefix_adds_four_on_memory(
    m: Machine,
    prefix: u8,
    sub: u8,
    rv1: Seq<u8>,
    rv2: Seq<u8>,
    mem: Seq<u8>,
    port: u8,
)
    requires
        !is_prefix(sub),
        !names_index(sub),
        sub != 0x37 && sub != 0x3F,
        done(mem, port, sem_index_op(m, prefix, sub, rv1).0.ops, m.ops.len() as int),
        done(mem, port, sem_base(m, sub, false, rv2).0.ops, m.ops.len() as int),
    ensures
        sem_index_op(m, prefix, sub, rv1) == (
            sem_base(m, sub, false, rv2).0,
            Ok::<u32, crate::processor::Fault>((sem_base(m, sub, false, rv2).1 + 4) as u32),
        ),
{
    lemma_prefix_adds_four(m, prefix, sub, rv1);
    det_base(m, sub, false, rv1, rv2, mem, port);
}

} // verus!
