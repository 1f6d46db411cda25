//! DD/FD index-prefix dispatch.
//!
//! A DD or FD prefix is its own M1 fetch on real hardware: it costs 4
//! T-states and bumps R before the opcode after it is fetched. Base-set
//! opcodes that the prefix does not modify therefore run their ordinary
//! handler and add that 4 here; the handlers that take a `prefix` argument
//! already include the prefix cost in their documented totals.
//!
//! A run of DD/FD bytes is legal: each one is a stray M1 that costs 4
//! T-states and bumps R, the last one decides the register, and an ED after
//! any of them starts an ED instruction that the prefix cannot touch
//! (Sean Young, *The Undocumented Z80 Documented*, sections 3.7 and 6.1).

use vstd::prelude::*;

use crate::dispatch::{
    extends, is_prefix, lemma_ops_base, lemma_ops_ed, lemma_prefix_flag_only_scf_ccf, lemma_q_base, lemma_q_ed, lemma_requests_base,
    lemma_requests_ed, q_consistent, requests, sem_base, sem_ed,
};
use crate::index::{
    idx, sem_add_index_rr, sem_alu_index_byte, sem_ex_sp_index, sem_inc_dec_index,
    sem_inc_dec_index_byte, sem_inc_dec_index_mem, sem_index_bit, sem_index_res_set,
    sem_index_rot, sem_indexed_alu, sem_jp_index, sem_ld_a_index_byte, sem_ld_index_byte_index_byte,
    sem_ld_index_byte_n, sem_ld_index_byte_r, sem_ld_index_mem_n, sem_ld_index_mem_r,
    sem_ld_index_nn, sem_ld_index_nn_mem, sem_ld_r_index_byte, sem_ld_r_index_mem,
    sem_ld_sp_index, sem_pop_index, sem_push_index,
};
use crate::loads::sem_ld_nn_rr;
use crate::processor::{
    fetched, lemma_replies_chain, lemma_replies_push, new_replies, operand, stepped, stepped_res,
    host_kept, Bus, Fault, Machine, Z80,
};

verus! {

broadcast use crate::flags::group_masks;

/// The longest stray-prefix run, in T-states, that one boundary accounts
/// for; a longer run (over a billion prefixes) stops with a fault instead
/// of overflowing the T-state count.
pub const STRAY_LIMIT: u32 = 0xFFFF_FF00;

pub open spec fn ok(r: (Machine, u32)) -> (Machine, Result<u32, Fault>) {
    (r.0, Ok(r.1))
}

/// A base-set handler under a prefix: the same effect and 4 more T-states.
pub open spec fn ok4(r: (Machine, u32)) -> (Machine, Result<u32, Fault>) {
    (r.0, Ok((r.1 + 4) as u32))
}

/// What the byte after the last DD/FD prefix does (after its fetch).
pub open spec fn sem_index_op(m: Machine, prefix: u8, sub: u8, rv: Seq<u8>) -> (Machine, Result<u32, Fault>) {
    if sub < 0x40 {
        sem_index_op_low(m, prefix, sub, rv)
    } else if sub < 0x80 {
        sem_index_op_loads(m, prefix, sub, rv)
    } else if sub < 0xC0 {
        sem_index_op_alu(m, prefix, sub, rv)
    } else {
        sem_index_op_high(m, prefix, sub, rv)
    }
}

pub open spec fn sem_index_op_low(m: Machine, prefix: u8, sub: u8, rv: Seq<u8>) -> (Machine, Result<u32, Fault>) {
    if sub == 0x09 || sub == 0x19 || sub == 0x29 || sub == 0x39 {
        ok(sem_add_index_rr(m, prefix, sub))
    } else if sub == 0x21 {
        ok(sem_ld_index_nn(m, prefix, rv))
    } else if sub == 0x22 {
        ok(sem_ld_nn_rr(m, idx(m.st, prefix), 20, rv))
    } else if sub == 0x23 {
        ok(sem_inc_dec_index(m, prefix, false))
    } else if sub == 0x24 || sub == 0x25 || sub == 0x2C || sub == 0x2D {
        ok4(sem_inc_dec_index_byte(m, prefix, sub))
    } else if sub == 0x26 || sub == 0x2E {
        ok4(sem_ld_index_byte_n(m, prefix, sub, rv))
    } else if sub == 0x2A {
        ok(sem_ld_index_nn_mem(m, prefix, rv))
    } else if sub == 0x2B {
        ok(sem_inc_dec_index(m, prefix, true))
    } else if sub == 0x34 {
        ok(sem_inc_dec_index_mem(m, prefix, false, rv))
    } else if sub == 0x35 {
        ok(sem_inc_dec_index_mem(m, prefix, true, rv))
    } else if sub == 0x36 {
        ok(sem_ld_index_mem_n(m, prefix, rv))
    } else {
        ok4(sem_base(m, sub, true, rv))
    }
}

pub open spec fn sem_index_op_loads(m: Machine, prefix: u8, sub: u8, rv: Seq<u8>) -> (Machine, Result<u32, Fault>) {
    if sub == 0x44 || sub == 0x45 || sub == 0x4C || sub == 0x4D || sub == 0x54 || sub == 0x55
        || sub == 0x5C || sub == 0x5D {
        ok4(sem_ld_r_index_byte(m, prefix, sub))
    } else if sub == 0x46 || sub == 0x4E || sub == 0x56 || sub == 0x5E || sub == 0x66 || sub
        == 0x6E || sub == 0x7E {
        ok(sem_ld_r_index_mem(m, prefix, sub, rv))
    } else if sub == 0x60 || sub == 0x61 || sub == 0x62 || sub == 0x63 || sub == 0x67 || sub
        == 0x68 || sub == 0x69 || sub == 0x6A || sub == 0x6B || sub == 0x6F {
        ok4(sem_ld_index_byte_r(m, prefix, sub))
    } else if sub == 0x64 || sub == 0x65 || sub == 0x6C || sub == 0x6D {
        ok4(sem_ld_index_byte_index_byte(m, prefix, sub))
    } else if sub == 0x70 || sub == 0x71 || sub == 0x72 || sub == 0x73 || sub == 0x74 || sub
        == 0x75 || sub == 0x77 {
        ok(sem_ld_index_mem_r(m, prefix, sub, rv))
    } else if sub == 0x7C {
        ok4(sem_ld_a_index_byte(m, prefix, true))
    } else if sub == 0x7D {
        ok4(sem_ld_a_index_byte(m, prefix, false))
    } else {
        ok4(sem_base(m, sub, true, rv))
    }
}

/// 0x80-0xBF: the ALU group `(sub - 0x80) / 8`; operand IXH/IYH in column 4,
/// IXL/IYL in column 5, (IX+d)/(IY+d) in column 6, a register otherwise.
pub open spec fn sem_index_op_alu(m: Machine, prefix: u8, sub: u8, rv: Seq<u8>) -> (Machine, Result<u32, Fault>) {
    let group = ((sub - 0x80) / 8) as u8;
    let column = (sub - 0x80) % 8;
    if column == 4 {
        ok4(sem_alu_index_byte(m, prefix, group, true))
    } else if column == 5 {
        ok4(sem_alu_index_byte(m, prefix, group, false))
    } else if column == 6 {
        ok(sem_indexed_alu(m, prefix, group, rv))
    } else {
        ok4(sem_base(m, sub, true, rv))
    }
}

pub open spec fn sem_index_op_high(m: Machine, prefix: u8, sub: u8, rv: Seq<u8>) -> (Machine, Result<u32, Fault>) {
    if sub == 0xCB {
        // DD CB d op: the displacement and the final opcode byte are
        // operand reads, not M1 cycles.
        let d = rv[0];
        let op = rv[1];
        let m1 = operand(operand(m, d), op);
        let rest = rv.skip(2);
        ok(
            if op < 0x40 {
                sem_index_rot(m1, prefix, d, op, rest)
            } else if op < 0x80 {
                sem_index_bit(m1, prefix, d, op, rest)
            } else if op < 0xC0 {
                sem_index_res_set(m1, prefix, d, op, false, rest)
            } else {
                sem_index_res_set(m1, prefix, d, op, true, rest)
            },
        )
    } else if sub == 0xDD || sub == 0xED || sub == 0xFD {
        (m, Err(Fault::UnhandledIndexOpcode { prefix, opcode: sub, pc: m.st.pc.wrapping_sub(2) }))
    } else if sub == 0xE1 {
        ok(sem_pop_index(m, prefix, rv))
    } else if sub == 0xE3 {
        ok(sem_ex_sp_index(m, prefix, rv))
    } else if sub == 0xE5 {
        ok(sem_push_index(m, prefix))
    } else if sub == 0xE9 {
        ok(sem_jp_index(m, prefix))
    } else if sub == 0xF9 {
        ok(sem_ld_sp_index(m, prefix))
    } else {
        ok4(sem_base(m, sub, true, rv))
    }
}

/// A run of DD/FD prefixes from the byte `sub` after prefix `prefix`, with
/// `stray` T-states of stray prefixes so far: each further DD/FD is a
/// 4-T-state M1 and becomes the prefix; an ED after any of them starts an
/// ED instruction (the prefix a 4-T-state stray); anything else runs under
/// the last prefix.
#[verifier::opaque]
pub open spec fn sem_index_run(m: Machine, prefix: u8, sub: u8, rv: Seq<u8>, stray: u32) -> (Machine, Result<u32, Fault>)
    decreases STRAY_LIMIT - stray,
{
    if sub == 0xDD || sub == 0xFD {
        if stray + 4 > STRAY_LIMIT {
            (m, Err(Fault::UnhandledIndexOpcode { prefix: sub, opcode: sub, pc: m.st.pc }))
        } else {
            sem_index_run(fetched(m, rv[0]), sub, rv[0], rv.skip(1), (stray + 4) as u32)
        }
    } else if sub == 0xED {
        let r = sem_ed(fetched(m, rv[0]), rv[0], rv.skip(1));
        (r.0, Ok((stray + 4 + r.1) as u32))
    } else {
        let r = sem_index_op(m, prefix, sub, rv);
        (
            r.0,
            match r.1 {
                Ok(t) => Ok((stray + t) as u32),
                Err(e) => Err(e),
            },
        )
    }
}

/// One step of a prefix run: a further DD/FD within the limit is fetched
/// and becomes the prefix.
pub proof fn lemma_run_prefix(m: Machine, prefix: u8, sub: u8, rv: Seq<u8>, stray: u32)
    requires
        sub == 0xDD || sub == 0xFD,
        stray + 4 <= STRAY_LIMIT,
    ensures
        sem_index_run(m, prefix, sub, rv, stray) == sem_index_run(
            fetched(m, rv[0]),
            sub,
            rv[0],
            rv.skip(1),
            (stray + 4) as u32,
        ),
{
    reveal(sem_index_run);
}

/// A prefix run that reaches the limit stops with a fault.
pub proof fn lemma_run_limit(m: Machine, prefix: u8, sub: u8, rv: Seq<u8>, stray: u32)
    requires
        sub == 0xDD || sub == 0xFD,
        stray + 4 > STRAY_LIMIT,
    ensures
        sem_index_run(m, prefix, sub, rv, stray) == (
            m,
            Err::<u32, Fault>(Fault::UnhandledIndexOpcode { prefix: sub, opcode: sub, pc: m.st.pc }),
        ),
{
    reveal(sem_index_run);
}

/// An ED ends a prefix run and starts an ED instruction.
pub proof fn lemma_run_ed(m: Machine, prefix: u8, rv: Seq<u8>, stray: u32)
    ensures
        sem_index_run(m, prefix, 0xED, rv, stray) == (
            sem_ed(fetched(m, rv[0]), rv[0], rv.skip(1)).0,
            Ok::<u32, Fault>((stray + 4 + sem_ed(fetched(m, rv[0]), rv[0], rv.skip(1)).1) as u32),
        ),
{
    reveal(sem_index_run);
}

/// Any other byte ends a prefix run and runs under the last prefix.
pub proof fn lemma_run_other(m: Machine, prefix: u8, sub: u8, rv: Seq<u8>, stray: u32)
    requires
        sub != 0xDD && sub != 0xFD && sub != 0xED,
    ensures
        sem_index_run(m, prefix, sub, rv, stray) == (
            sem_index_op(m, prefix, sub, rv).0,
            match sem_index_op(m, prefix, sub, rv).1 {
                Ok(t) => Ok((stray + t) as u32),
                Err(e) => Err(e),
            },
        ),
{
    reveal(sem_index_run);
}

/// After the prefix run, the byte that ends it never faults: only DD, ED
/// and FD are missing from the table, and the run consumes those.
pub proof fn lemma_index_op_total(m: Machine, prefix: u8, sub: u8, rv: Seq<u8>)
    requires
        sub != 0xDD && sub != 0xED && sub != 0xFD,
    ensures
        sem_index_op(m, prefix, sub, rv).1 is Ok,
{
}

/// A prefix run faults only by reaching the stray limit, with the
/// unhandled-index fault.
pub proof fn lemma_run_faults(m: Machine, prefix: u8, sub: u8, rv: Seq<u8>, stray: u32)
    ensures
        sem_index_run(m, prefix, sub, rv, stray).1 matches Err(e) ==> e is UnhandledIndexOpcode,
    decreases STRAY_LIMIT - stray,
{
    if sub == 0xDD || sub == 0xFD {
        if stray + 4 > STRAY_LIMIT {
            lemma_run_limit(m, prefix, sub, rv, stray);
        } else {
            lemma_run_prefix(m, prefix, sub, rv, stray);
            lemma_run_faults(fetched(m, rv[0]), sub, rv[0], rv.skip(1), (stray + 4) as u32);
        }
    } else if sub == 0xED {
        lemma_run_ed(m, prefix, rv, stray);
    } else {
        lemma_run_other(m, prefix, sub, rv, stray);
        lemma_index_op_total(m, prefix, sub, rv);
    }
}

/// Every instruction after a DD/FD prefix leaves Q consistent with F when
/// it runs.
#[verifier::rlimit(60)]
pub proof fn lemma_q_index_op(m: Machine, prefix: u8, sub: u8, rv: Seq<u8>)
    requires
        sub != 0xDD && sub != 0xED && sub != 0xFD,
    ensures
        q_consistent(sem_index_op(m, prefix, sub, rv).0.st),
{
    if sub < 0x40 {
        if !(sub == 0x09 || sub == 0x19 || sub == 0x29 || sub == 0x39 || sub == 0x21 || sub == 0x22
            || sub == 0x23 || sub == 0x24 || sub == 0x25 || sub == 0x2C || sub == 0x2D || sub
            == 0x26 || sub == 0x2E || sub == 0x2A || sub == 0x2B || sub == 0x34 || sub == 0x35
            || sub == 0x36) {
            lemma_q_base(m, sub, true, rv);
        }
    } else if sub < 0x80 {
        lemma_q_base(m, sub, true, rv);
    } else if sub < 0xC0 {
        lemma_q_base(m, sub, true, rv);
    } else {
        lemma_q_base(m, sub, true, rv);
    }
}

/// A prefix run that completes leaves Q consistent with F.
pub proof fn lemma_q_run(m: Machine, prefix: u8, sub: u8, rv: Seq<u8>, stray: u32)
    requires
        q_consistent(m.st),
    ensures
        q_consistent(sem_index_run(m, prefix, sub, rv, stray).0.st),
    decreases STRAY_LIMIT - stray,
{
    if sub == 0xDD || sub == 0xFD {
        if stray + 4 > STRAY_LIMIT {
            lemma_run_limit(m, prefix, sub, rv, stray);
        } else {
            lemma_run_prefix(m, prefix, sub, rv, stray);
            lemma_q_run(fetched(m, rv[0]), sub, rv[0], rv.skip(1), (stray + 4) as u32);
        }
    } else if sub == 0xED {
        lemma_run_ed(m, prefix, rv, stray);
        lemma_q_ed(fetched(m, rv[0]), rv[0], rv.skip(1));
    } else {
        lemma_run_other(m, prefix, sub, rv, stray);
        lemma_q_index_op(m, prefix, sub, rv);
    }
}

/// The bytes after a prefix that name IX/IY (or their halves, or
/// `(IX+d)`) and so have handlers of their own.
pub open spec fn names_index(sub: u8) -> bool {
    ||| sub == 0x09 || sub == 0x19 || sub == 0x29 || sub == 0x39 || sub == 0x21 || sub == 0x22
        || sub == 0x23 || sub == 0x24 || sub == 0x25 || sub == 0x2C || sub == 0x2D || sub == 0x26
        || sub == 0x2E || sub == 0x2A || sub == 0x2B || sub == 0x34 || sub == 0x35 || sub == 0x36
    ||| 0x40 <= sub < 0x80 && (((sub >> 3u8) & 7) == 4 || ((sub >> 3u8) & 7) == 5 || ((sub >> 3u8)
        & 7) == 6 || (sub & 7) == 4 || (sub & 7) == 5 || (sub & 7) == 6) && sub != 0x76
    ||| 0x80 <= sub < 0xC0 && ((sub - 0x80) % 8 == 4 || (sub - 0x80) % 8 == 5 || (sub - 0x80) % 8
        == 6)
    ||| sub == 0xCB || sub == 0xE1 || sub == 0xE3 || sub == 0xE5 || sub == 0xE9 || sub == 0xF9
}

/// A DD/FD prefix before a base-set instruction that names none of IX, IY,
/// their halves or `(IX+d)` adds only its own 4 T-states: the instruction
/// does what it does unprefixed (SCF and CCF included, which see the
/// prefix through Q), in 4 more T-states.
#[verifier::rlimit(80)]
pub proof fn lemma_prefix_adds_four(m: Machine, prefix: u8, sub: u8, rv: Seq<u8>)
    requires
        !is_prefix(sub),
        !names_index(sub),
    ensures
        sem_index_op(m, prefix, sub, rv) == (
            sem_base(m, sub, true, rv).0,
            Ok::<u32, Fault>((sem_base(m, sub, true, rv).1 + 4) as u32),
        ),
        sub != 0x37 && sub != 0x3F ==> sem_base(m, sub, true, rv) == sem_base(m, sub, false, rv),
{
    if sub != 0x37 && sub != 0x3F {
        lemma_prefix_flag_only_scf_ccf(m, sub, rv);
    }
    assert(sub & 7 == sub % 8 && (sub >> 3u8) & 7 == (sub / 8) % 8) by (bit_vector);
}

/// No instruction after a DD/FD prefix touches a lifecycle request.
pub proof fn lemma_requests_index_op(m: Machine, prefix: u8, sub: u8, rv: Seq<u8>)
    requires
        sub != 0xDD && sub != 0xED && sub != 0xFD,
    ensures
        requests(sem_index_op(m, prefix, sub, rv).0.st) == requests(m.st),
{
    lemma_requests_base(m, sub, true, rv);
    let s = sem_index_op(m, prefix, sub, rv).0.st;
    if sub < 0x40 {
        lemma_requests_index_low(m, prefix, sub, rv);
    } else if sub < 0x80 {
        lemma_requests_index_loads(m, prefix, sub, rv);
    } else if sub < 0xC0 {
        lemma_requests_index_alu(m, prefix, sub, rv);
    } else {
        lemma_requests_index_high(m, prefix, sub, rv);
    }
}

#[verifier::rlimit(60)]
proof fn lemma_requests_index_low(m: Machine, prefix: u8, sub: u8, rv: Seq<u8>)
    requires
        sub < 0x40,
        requests(sem_base(m, sub, true, rv).0.st) == requests(m.st),
    ensures
        requests(sem_index_op_low(m, prefix, sub, rv).0.st) == requests(m.st),
{
}

#[verifier::rlimit(60)]
proof fn lemma_requests_index_loads(m: Machine, prefix: u8, sub: u8, rv: Seq<u8>)
    requires
        0x40 <= sub < 0x80,
        requests(sem_base(m, sub, true, rv).0.st) == requests(m.st),
    ensures
        requests(sem_index_op_loads(m, prefix, sub, rv).0.st) == requests(m.st),
{
}

#[verifier::rlimit(60)]
proof fn lemma_requests_index_alu(m: Machine, prefix: u8, sub: u8, rv: Seq<u8>)
    requires
        0x80 <= sub < 0xC0,
        requests(sem_base(m, sub, true, rv).0.st) == requests(m.st),
    ensures
        requests(sem_index_op_alu(m, prefix, sub, rv).0.st) == requests(m.st),
{
}

#[verifier::rlimit(60)]
proof fn lemma_requests_index_high(m: Machine, prefix: u8, sub: u8, rv: Seq<u8>)
    requires
        sub >= 0xC0,
        sub != 0xDD && sub != 0xED && sub != 0xFD,
        requests(sem_base(m, sub, true, rv).0.st) == requests(m.st),
    ensures
        requests(sem_index_op_high(m, prefix, sub, rv).0.st) == requests(m.st),
{
}

/// A prefix run never touches a lifecycle request.
pub proof fn lemma_requests_run(m: Machine, prefix: u8, sub: u8, rv: Seq<u8>, stray: u32)
    ensures
        requests(sem_index_run(m, prefix, sub, rv, stray).0.st) == requests(m.st),
    decreases STRAY_LIMIT - stray,
{
    if sub == 0xDD || sub == 0xFD {
        if stray + 4 > STRAY_LIMIT {
            lemma_run_limit(m, prefix, sub, rv, stray);
        } else {
            lemma_run_prefix(m, prefix, sub, rv, stray);
            lemma_requests_run(fetched(m, rv[0]), sub, rv[0], rv.skip(1), (stray + 4) as u32);
        }
    } else if sub == 0xED {
        lemma_run_ed(m, prefix, rv, stray);
        lemma_requests_ed(fetched(m, rv[0]), rv[0], rv.skip(1));
    } else {
        lemma_run_other(m, prefix, sub, rv, stray);
        lemma_requests_index_op(m, prefix, sub, rv);
    }
}

/// An instruction after a DD/FD prefix only adds to the bus traffic.
pub proof fn lemma_ops_index_op(m: Machine, prefix: u8, sub: u8, rv: Seq<u8>)
    requires
        sub != 0xDD && sub != 0xED && sub != 0xFD,
    ensures
        extends(m.ops, sem_index_op(m, prefix, sub, rv).0.ops),
{
    lemma_ops_base(m, sub, true, rv);
    if sub < 0x40 {
        lemma_ops_index_low(m, prefix, sub, rv);
    } else if sub < 0x80 {
        lemma_ops_index_loads(m, prefix, sub, rv);
    } else if sub < 0xC0 {
        lemma_ops_index_alu(m, prefix, sub, rv);
    } else {
        lemma_ops_index_high(m, prefix, sub, rv);
    }
}

#[verifier::rlimit(80)]
proof fn lemma_ops_index_low(m: Machine, prefix: u8, sub: u8, rv: Seq<u8>)
    requires
        sub < 0x40,
        extends(m.ops, sem_base(m, sub, true, rv).0.ops),
    ensures
        extends(m.ops, sem_index_op_low(m, prefix, sub, rv).0.ops),
{
}

#[verifier::rlimit(80)]
proof fn lemma_ops_index_loads(m: Machine, prefix: u8, sub: u8, rv: Seq<u8>)
    requires
        0x40 <= sub < 0x80,
        extends(m.ops, sem_base(m, sub, true, rv).0.ops),
    ensures
        extends(m.ops, sem_index_op_loads(m, prefix, sub, rv).0.ops),
{
}

#[verifier::rlimit(80)]
proof fn lemma_ops_index_alu(m: Machine, prefix: u8, sub: u8, rv: Seq<u8>)
    requires
        0x80 <= sub < 0xC0,
        extends(m.ops, sem_base(m, sub, true, rv).0.ops),
    ensures
        extends(m.ops, sem_index_op_alu(m, prefix, sub, rv).0.ops),
{
}

#[verifier::rlimit(80)]
proof fn lemma_ops_index_high(m: Machine, prefix: u8, sub: u8, rv: Seq<u8>)
    requires
        sub >= 0xC0,
        sub != 0xDD && sub != 0xED && sub != 0xFD,
        extends(m.ops, sem_base(m, sub, true, rv).0.ops),
    ensures
        extends(m.ops, sem_index_op_high(m, prefix, sub, rv).0.ops),
{
}

/// A prefix run only adds to the bus traffic.
pub proof fn lemma_ops_run(m: Machine, prefix: u8, sub: u8, rv: Seq<u8>, stray: u32)
    ensures
        extends(m.ops, sem_index_run(m, prefix, sub, rv, stray).0.ops),
    decreases STRAY_LIMIT - stray,
{
    if sub == 0xDD || sub == 0xFD {
        if stray + 4 > STRAY_LIMIT {
            lemma_run_limit(m, prefix, sub, rv, stray);
        } else {
            lemma_run_prefix(m, prefix, sub, rv, stray);
            lemma_ops_run(fetched(m, rv[0]), sub, rv[0], rv.skip(1), (stray + 4) as u32);
        }
    } else if sub == 0xED {
        lemma_run_ed(m, prefix, rv, stray);
        lemma_ops_ed(fetched(m, rv[0]), rv[0], rv.skip(1));
    } else {
        lemma_run_other(m, prefix, sub, rv, stray);
        lemma_ops_index_op(m, prefix, sub, rv);
    }
}

pub proof fn lemma_base_t_states(m: Machine, op: u8, prefixed: bool, rv: Seq<u8>)
    ensures
        sem_base(m, op, prefixed, rv).1 <= 23,
{
}

pub proof fn lemma_ed_t_states(m: Machine, op: u8, rv: Seq<u8>)
    ensures
        sem_ed(m, op, rv).1 <= 23,
{
}

impl<B: Bus> Z80<B> {
    pub fn execute_index(&mut self, prefix: u8, sub_opcode: u8) -> (r: Result<u32, Fault>)
        ensures
            host_kept(old(self).bus, final(self).bus),
            stepped_res(*old(self), *final(self), r, sem_index_run(old(self).m(), prefix, sub_opcode, new_replies(*old(self), *final(self)), 0)),
    {
        let ghost m0 = self.m();
        let ghost r0 = self.replies@;
        let ghost p0 = prefix;
        let ghost s0 = sub_opcode;
        let mut prefix = prefix;
        let mut sub_opcode = sub_opcode;
        let mut stray_t_states: u32 = 0;
        assert forall|rest: Seq<u8>|
            #![trigger sem_index_run(m0, prefix, sub_opcode, rest, 0)]
            sem_index_run(m0, prefix, sub_opcode, rest, 0) == sem_index_run(
                m0,
                p0,
                s0,
                self.replies@.skip(r0.len() as int) + rest,
                0,
            ) by {
            assert(self.replies@.skip(r0.len() as int) + rest =~= rest);
        }
        while (sub_opcode == 0xDD || sub_opcode == 0xFD) && stray_t_states <= STRAY_LIMIT - 4
            invariant
                stray_t_states <= STRAY_LIMIT,
                host_kept(old(self).bus, self.bus),
                r0.is_prefix_of(self.replies@),
                r0 == old(self).replies@,
                m0 == old(self).m(),
                forall|rest: Seq<u8>|
                    #![trigger sem_index_run(self.m(), prefix, sub_opcode, rest, stray_t_states)]
                    sem_index_run(self.m(), prefix, sub_opcode, rest, stray_t_states)
                        == sem_index_run(
                        m0,
                        p0,
                        s0,
                        self.replies@.skip(r0.len() as int) + rest,
                        0,
                    ),
            decreases STRAY_LIMIT - stray_t_states,
        {
            let ghost pm = self.m();
            let ghost pr = self.replies@;
            let ghost (pp, ps, pst) = (prefix, sub_opcode, stray_t_states);
            // A DD or FD before another DD or FD is a stray prefix: its own M1
            // (4 T-states, R+1, already counted by fetch_byte) and nothing else.
            prefix = sub_opcode;
            sub_opcode = self.fetch_byte();
            stray_t_states += 4;
            assert forall|rest: Seq<u8>|
                #![trigger sem_index_run(self.m(), prefix, sub_opcode, rest, stray_t_states)]
                sem_index_run(self.m(), prefix, sub_opcode, rest, stray_t_states) == sem_index_run(
                    m0,
                    p0,
                    s0,
                    self.replies@.skip(r0.len() as int) + rest,
                    0,
                ) by {
                let r1 = seq![sub_opcode] + rest;
                assert(r1[0] == sub_opcode);
                assert(r1.skip(1) =~= rest);
                lemma_run_prefix(pm, pp, ps, r1, pst);
                assert(sem_index_run(pm, pp, ps, r1, pst) == sem_index_run(self.m(), prefix, sub_opcode, rest, stray_t_states));
                assert(pr.skip(r0.len() as int) + r1 =~= self.replies@.skip(r0.len() as int) + rest);
            }
        }
        if sub_opcode == 0xDD || sub_opcode == 0xFD {
            let pc = self.pc;
            proof {
                let e = Seq::<u8>::empty();
                lemma_run_limit(self.m(), prefix, sub_opcode, e, stray_t_states);
                assert(self.replies@.skip(r0.len() as int) + e =~= self.replies@.skip(r0.len() as int));
                assert(sem_index_run(self.m(), prefix, sub_opcode, e, stray_t_states) == sem_index_run(m0, p0, s0, self.replies@.skip(r0.len() as int) + e, 0));
            }
            return Err(Fault::UnhandledIndexOpcode { prefix: sub_opcode, opcode: sub_opcode, pc });
        }
        let ghost lm = self.m();
        let ghost lr = self.replies@;
        if sub_opcode == 0xED {
            // An ED after the prefixes starts an ED instruction; ED
            // instructions never use the IX/IY substitution, so the last
            // DD/FD is a 4-T-state stray.
            let ed_opcode = self.fetch_byte();
            let ghost mid = *self;
            let t = self.execute_ed(ed_opcode);
            proof {
                lemma_ed_t_states(mid.m(), ed_opcode, new_replies(mid, *self));
                lemma_replies_push(lr, ed_opcode, self.replies@);
                lemma_replies_chain(lr, mid.replies@, self.replies@);
                lemma_replies_chain(r0, lr, self.replies@);
                let rest = self.replies@.skip(lr.len() as int);
                lemma_run_ed(lm, prefix, rest, stray_t_states);
                assert(rest[0] == ed_opcode);
                assert(rest.skip(1) =~= new_replies(mid, *self));
                assert(sem_index_run(lm, prefix, sub_opcode, rest, stray_t_states) == sem_index_run(m0, p0, s0, lr.skip(r0.len() as int) + rest, 0));
            }
            return Ok(stray_t_states + 4 + t);
        }
        let r = self.execute_index_opcode(prefix, sub_opcode);
        proof {
            lemma_replies_chain(r0, lr, self.replies@);
            let rest = self.replies@.skip(lr.len() as int);
            lemma_run_other(lm, prefix, sub_opcode, rest, stray_t_states);
            assert(sem_index_run(lm, prefix, sub_opcode, rest, stray_t_states) == sem_index_run(m0, p0, s0, lr.skip(r0.len() as int) + rest, 0));
        }
        match r {
            Ok(t) => Ok(stray_t_states + t),
            Err(e) => Err(e),
        }
    }

    /// Dispatch the byte after the last DD/FD prefix, adding the prefix
    /// cost to the base-set handlers it does not modify.
    pub fn execute_index_opcode(&mut self, prefix: u8, sub_opcode: u8) -> (r: Result<u32, Fault>)
        ensures
            host_kept(old(self).bus, final(self).bus),
            stepped_res(*old(self), *final(self), r, sem_index_op(old(self).m(), prefix, sub_opcode, new_replies(*old(self), *final(self)))),
            r matches Ok(t) ==> t <= 27,
    {
        if sub_opcode < 0x40 {
            Ok(self.index_op_low(prefix, sub_opcode))
        } else if sub_opcode < 0x80 {
            Ok(self.index_op_loads(prefix, sub_opcode))
        } else if sub_opcode < 0xC0 {
            Ok(self.index_op_alu(prefix, sub_opcode))
        } else {
            self.index_op_high(prefix, sub_opcode)
        }
    }

    /// A base-set instruction under a prefix: its own handler plus the
    /// prefix's 4 T-states.
    fn index_base(&mut self, sub_opcode: u8) -> (t: u32)
        requires
            !is_prefix(sub_opcode),
        ensures
            host_kept(old(self).bus, final(self).bus),
            stepped(*old(self), *final(self), t, (sem_base(old(self).m(), sub_opcode, true, new_replies(*old(self), *final(self))).0, (sem_base(old(self).m(), sub_opcode, true, new_replies(*old(self), *final(self))).1 + 4) as u32)),
            t <= 27,
    {
        let ghost pre = *self;
        let t = self.execute_base(sub_opcode, true);
        proof {
            lemma_base_t_states(pre.m(), sub_opcode, true, new_replies(pre, *self));
        }
        t + 4
    }

    fn index_op_low(&mut self, prefix: u8, sub_opcode: u8) -> (t: u32)
        requires
            sub_opcode < 0x40,
        ensures
            host_kept(old(self).bus, final(self).bus),
            stepped_res(*old(self), *final(self), Ok(t), sem_index_op_low(old(self).m(), prefix, sub_opcode, new_replies(*old(self), *final(self)))),
            t <= 27,
    {
        match sub_opcode {
            0x09 | 0x19 | 0x29 | 0x39 => self.op_add_index_rr(prefix, sub_opcode),
            0x21 => self.op_ld_index_nn(prefix),
            0x22 => self.op_ld_nn_index(prefix),
            0x23 => self.op_inc_index(prefix),
            0x24 | 0x25 | 0x2C | 0x2D => self.op_inc_dec_index_byte(prefix, sub_opcode) + 4,
            0x26 | 0x2E => self.op_ld_index_byte_n(prefix, sub_opcode) + 4,
            0x2A => self.op_ld_index_nn_from_mem(prefix),
            0x2B => self.op_dec_index(prefix),
            0x34 => self.op_inc_index_mem(prefix),
            0x35 => self.op_dec_index_mem(prefix),
            0x36 => self.op_ld_index_mem_n(prefix),
            _ => self.index_base(sub_opcode),
        }
    }

    fn index_op_loads(&mut self, prefix: u8, sub_opcode: u8) -> (t: u32)
        requires
            0x40 <= sub_opcode < 0x80,
        ensures
            host_kept(old(self).bus, final(self).bus),
            stepped_res(*old(self), *final(self), Ok(t), sem_index_op_loads(old(self).m(), prefix, sub_opcode, new_replies(*old(self), *final(self)))),
            t <= 27,
    {
        proof {
            crate::dispatch::lemma_fields(sub_opcode);
        }
        match sub_opcode {
            0x44 | 0x45 | 0x4C | 0x4D | 0x54 | 0x55 | 0x5C | 0x5D => self.op_ld_r_index_byte(prefix, sub_opcode) + 4,
            0x46 | 0x4E | 0x56 | 0x5E | 0x66 | 0x6E | 0x7E => self.op_ld_r_index_mem(prefix, sub_opcode),
            0x60 | 0x61 | 0x62 | 0x63 | 0x67 | 0x68 | 0x69 | 0x6A | 0x6B | 0x6F => self.op_ld_index_byte_r(prefix, sub_opcode) + 4,
            0x64 | 0x65 | 0x6C | 0x6D => self.op_ld_index_byte_index_byte(prefix, sub_opcode) + 4,
            0x70 | 0x71 | 0x72 | 0x73 | 0x74 | 0x75 | 0x77 => self.op_ld_index_mem_r(prefix, sub_opcode),
            0x7C => self.op_ld_a_index_h(prefix) + 4,
            0x7D => self.op_ld_a_index_l(prefix) + 4,
            _ => self.index_base(sub_opcode),
        }
    }

    fn index_op_alu(&mut self, prefix: u8, sub_opcode: u8) -> (t: u32)
        requires
            0x80 <= sub_opcode < 0xC0,
        ensures
            host_kept(old(self).bus, final(self).bus),
            stepped_res(*old(self), *final(self), Ok(t), sem_index_op_alu(old(self).m(), prefix, sub_opcode, new_replies(*old(self), *final(self)))),
            t <= 27,
    {
        let group = (sub_opcode - 0x80) / 8;
        let column = (sub_opcode - 0x80) % 8;
        if column == 4 {
            self.index_alu_high(prefix, group) + 4
        } else if column == 5 {
            self.index_alu_low(prefix, group) + 4
        } else if column == 6 {
            self.index_alu_mem(prefix, group)
        } else {
            self.index_base(sub_opcode)
        }
    }

    /// ADD/ADC/SUB/SBC/AND/XOR/OR/CP A,IXH/IYH by ALU group.
    fn index_alu_high(&mut self, prefix: u8, group: u8) -> (t: u32)
        requires
            group < 8,
        ensures
            host_kept(old(self).bus, final(self).bus),
            stepped(*old(self), *final(self), t, sem_alu_index_byte(old(self).m(), prefix, group, true)),
            t == 4,
    {
        match group {
            0 => self.op_add_a_index_h(prefix),
            1 => self.op_adc_a_index_h(prefix),
            2 => self.op_sub_a_index_h(prefix),
            3 => self.op_sbc_a_index_h(prefix),
            4 => self.op_and_a_index_h(prefix),
            5 => self.op_xor_a_index_h(prefix),
            6 => self.op_or_a_index_h(prefix),
            _ => self.op_cp_a_index_h(prefix),
        }
    }

    /// ADD/ADC/SUB/SBC/AND/XOR/OR/CP A,IXL/IYL by ALU group.
    fn index_alu_low(&mut self, prefix: u8, group: u8) -> (t: u32)
        requires
            group < 8,
        ensures
            host_kept(old(self).bus, final(self).bus),
            stepped(*old(self), *final(self), t, sem_alu_index_byte(old(self).m(), prefix, group, false)),
            t == 4,
    {
        match group {
            0 => self.op_add_a_index_l(prefix),
            1 => self.op_adc_a_index_l(prefix),
            2 => self.op_sub_a_index_l(prefix),
            3 => self.op_sbc_a_index_l(prefix),
            4 => self.op_and_a_index_l(prefix),
            5 => self.op_xor_a_index_l(prefix),
            6 => self.op_or_a_index_l(prefix),
            _ => self.op_cp_a_index_l(prefix),
        }
    }

    /// ADD/ADC/SUB/SBC/AND/XOR/OR/CP A,(IX+d)/(IY+d) by ALU group.
    fn index_alu_mem(&mut self, prefix: u8, group: u8) -> (t: u32)
        requires
            group < 8,
        ensures
            host_kept(old(self).bus, final(self).bus),
            stepped(*old(self), *final(self), t, sem_indexed_alu(old(self).m(), prefix, group, new_replies(*old(self), *final(self)))),
            t <= 27,
    {
        match group {
            0 => self.op_add_a_index_mem(prefix),
            1 => self.op_adc_a_index_mem(prefix),
            2 => self.op_sub_a_index_mem(prefix),
            3 => self.op_sbc_a_index_mem(prefix),
            4 => self.op_and_a_index_mem(prefix),
            5 => self.op_xor_a_index_mem(prefix),
            6 => self.op_or_a_index_mem(prefix),
            _ => self.op_cp_a_index_mem(prefix),
        }
    }

    fn index_op_high(&mut self, prefix: u8, sub_opcode: u8) -> (r: Result<u32, Fault>)
        requires
            sub_opcode >= 0xC0,
        ensures
            host_kept(old(self).bus, final(self).bus),
            stepped_res(*old(self), *final(self), r, sem_index_op_high(old(self).m(), prefix, sub_opcode, new_replies(*old(self), *final(self)))),
            r matches Ok(t) ==> t <= 27,
    {
        let t_states = match sub_opcode {
            0xCB => {
                let displacement = self.read_operand_byte();
                // The final DDCB opcode byte is read as an operand, not an M1 fetch, so R
                // advances only for the DD and CB prefixes.
                let cb_opcode = self.read_operand_byte();
                let ghost mid = *self;
                let t = if cb_opcode < 0x40 {
                    self.op_index_rot(prefix, displacement, cb_opcode)
                } else if cb_opcode < 0x80 {
                    self.op_index_bit(prefix, displacement, cb_opcode)
                } else if cb_opcode < 0xC0 {
                    self.op_index_res_set(prefix, displacement, cb_opcode, false)
                } else {
                    self.op_index_res_set(prefix, displacement, cb_opcode, true)
                };
                proof {
                    let r0 = old(self).replies@;
                    lemma_replies_chain(r0, mid.replies@, self.replies@);
                    assert(mid.replies@ == r0.push(displacement).push(cb_opcode));
                    assert(self.replies@.skip(r0.len() as int) =~= seq![displacement, cb_opcode] + self.replies@.skip(mid.replies@.len() as int));
                    assert(self.replies@.skip(r0.len() as int).skip(2) =~= self.replies@.skip(mid.replies@.len() as int));
                }
                t
            },
            // Consumed by execute_index before this table; kept so the table
            // stays complete and a direct call behaves as a table lookup would.
            0xDD | 0xED | 0xFD => {
                let pc = self.pc.wrapping_sub(2);
                return Err(Fault::UnhandledIndexOpcode { prefix, opcode: sub_opcode, pc });
            },
            0xE1 => self.op_pop_index(prefix),
            0xE3 => self.op_ex_sp_index(prefix),
            0xE5 => self.op_push_index(prefix),
            0xE9 => self.op_jp_index(prefix),
            0xF9 => self.op_ld_sp_index(prefix),
            _ => self.index_base(sub_opcode),
        };
        Ok(t_states)
    }
}

} // verus!
