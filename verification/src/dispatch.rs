//! Top-level, base, CB, and ED opcode dispatch.
//!
//! The decoding tables are stated as spec functions (`sem_base`, `sem_cb`,
//! `sem_ed`, `sem_main`) that name, for every opcode byte, the instruction
//! semantics it selects; the dispatchers are proved to follow them.

use vstd::prelude::*;

use crate::alu::{
    sem_adc_sbc_hl_rr, sem_add_hl_rr, sem_alu_n, sem_alu_r, sem_cpl, sem_daa, sem_dec_r,
    sem_inc_dec_hl, sem_inc_dec_rr, sem_inc_r, sem_neg, sem_scf_ccf,
};
use crate::blocks::{sem_cpi, sem_ldi};
use crate::control::{
    sem_call, sem_djnz, sem_ed_nop, sem_ex_af_af, sem_ex_de_hl, sem_ex_sp_hl, sem_exx, sem_halt,
    sem_im, sem_interrupt_enable, sem_jp, sem_jp_hl, sem_jr, sem_nop, sem_ret, sem_ret_cc,
    sem_ret_iff, sem_rst,
};
use crate::index_dispatch::sem_index_run;
use crate::io::{sem_block_io, sem_in_a_n, sem_in_r_c, sem_out_c_r, sem_out_n_a};
use crate::loads::{
    sem_ld_a_inn, sem_ld_a_ir, sem_ld_a_irr, sem_ld_i_a, sem_ld_inn_a, sem_ld_irr_a, sem_ld_nn_rr,
    sem_ld_r_a, sem_ld_r_n, sem_ld_r_r, sem_ld_rr_nn, sem_ld_rr_nn_mem, sem_ld_sp_hl, sem_pop_af,
    sem_pop_rr, sem_push_af, sem_push_rr,
};
use crate::processor::{
    bc, de, fetched, hl, lemma_replies_chain, lemma_replies_push, new_replies, pair, stepped,
    stepped_res, host_kept, Bus, BusOp, Fault, Machine, Z80,
};
use crate::rotate::{sem_bit, sem_res_set, sem_rot, sem_rot_a, sem_rrd_rld};

verus! {

broadcast use crate::flags::group_masks;

/// The four prefix bytes.
pub open spec fn is_prefix(op: u8) -> bool {
    op == 0xCB || op == 0xED || op == 0xDD || op == 0xFD
}

/// What an unprefixed opcode (one that is not itself a prefix) does, after
/// its fetch. `prefixed` says whether a DD/FD prefix preceded it, which only
/// SCF/CCF observe.
pub open spec fn sem_base(m: Machine, op: u8, prefixed: bool, rv: Seq<u8>) -> (Machine, u32) {
    if op == 0x00 {
        sem_nop(m)
    } else if op == 0x01 || op == 0x11 || op == 0x21 || op == 0x31 {
        sem_ld_rr_nn(m, op, rv)
    } else if op == 0x02 {
        sem_ld_irr_a(m, bc(m.st))
    } else if op == 0x12 {
        sem_ld_irr_a(m, de(m.st))
    } else if op == 0x03 || op == 0x13 || op == 0x23 || op == 0x33 {
        sem_inc_dec_rr(m, op, false)
    } else if op == 0x04 || op == 0x0C || op == 0x14 || op == 0x1C || op == 0x24 || op == 0x2C
        || op == 0x3C {
        sem_inc_r(m, op)
    } else if op == 0x05 || op == 0x0D || op == 0x15 || op == 0x1D || op == 0x25 || op == 0x2D
        || op == 0x3D {
        sem_dec_r(m, op)
    } else if op == 0x06 || op == 0x0E || op == 0x16 || op == 0x1E || op == 0x26 || op == 0x2E
        || op == 0x36 || op == 0x3E {
        sem_ld_r_n(m, op, rv)
    } else if op == 0x07 {
        sem_rot_a(m, 0)
    } else if op == 0x08 {
        sem_ex_af_af(m)
    } else if op == 0x09 || op == 0x19 || op == 0x29 || op == 0x39 {
        sem_add_hl_rr(m, op)
    } else if op == 0x0A {
        sem_ld_a_irr(m, bc(m.st), rv)
    } else if op == 0x1A {
        sem_ld_a_irr(m, de(m.st), rv)
    } else if op == 0x0B || op == 0x1B || op == 0x2B || op == 0x3B {
        sem_inc_dec_rr(m, op, true)
    } else if op == 0x0F {
        sem_rot_a(m, 1)
    } else if op == 0x10 {
        sem_djnz(m, rv)
    } else if op == 0x17 {
        sem_rot_a(m, 2)
    } else if op == 0x18 || op == 0x20 || op == 0x28 || op == 0x30 || op == 0x38 {
        sem_jr(m, op, rv)
    } else if op == 0x1F {
        sem_rot_a(m, 3)
    } else if op == 0x22 {
        sem_ld_nn_rr(m, hl(m.st), 16, rv)
    } else if op == 0x27 {
        sem_daa(m)
    } else if op == 0x2A {
        sem_ld_rr_nn_mem(m, 2, 16, rv)
    } else if op == 0x2F {
        sem_cpl(m)
    } else if op == 0x32 {
        sem_ld_inn_a(m, rv)
    } else if op == 0x34 {
        sem_inc_dec_hl(m, false, rv)
    } else if op == 0x35 {
        sem_inc_dec_hl(m, true, rv)
    } else if op == 0x37 || op == 0x3F {
        sem_scf_ccf(m, op, prefixed)
    } else if op == 0x3A {
        sem_ld_a_inn(m, rv)
    } else if op == 0x76 {
        sem_halt(m)
    } else if 0x40 <= op && op <= 0x7F {
        sem_ld_r_r(m, op, rv)
    } else if 0x80 <= op && op <= 0xBF {
        sem_alu_r(m, op, rv)
    } else if op == 0xC0 || op == 0xC8 || op == 0xD0 || op == 0xD8 || op == 0xE0 || op == 0xE8
        || op == 0xF0 || op == 0xF8 {
        sem_ret_cc(m, op, rv)
    } else if op == 0xC1 || op == 0xD1 || op == 0xE1 {
        sem_pop_rr(m, op, rv)
    } else if op == 0xC2 || op == 0xCA || op == 0xD2 || op == 0xDA || op == 0xE2 || op == 0xEA
        || op == 0xF2 || op == 0xFA || op == 0xC3 {
        sem_jp(m, op, rv)
    } else if op == 0xC4 || op == 0xCC || op == 0xD4 || op == 0xDC || op == 0xE4 || op == 0xEC
        || op == 0xF4 || op == 0xFC || op == 0xCD {
        sem_call(m, op, rv)
    } else if op == 0xC5 || op == 0xD5 || op == 0xE5 {
        sem_push_rr(m, op)
    } else if op == 0xC6 || op == 0xCE || op == 0xD6 || op == 0xDE || op == 0xE6 || op == 0xEE
        || op == 0xF6 || op == 0xFE {
        sem_alu_n(m, op, rv)
    } else if op == 0xC7 || op == 0xCF || op == 0xD7 || op == 0xDF || op == 0xE7 || op == 0xEF
        || op == 0xF7 || op == 0xFF {
        sem_rst(m, op)
    } else if op == 0xC9 {
        sem_ret(m, rv)
    } else if op == 0xD3 {
        sem_out_n_a(m, rv)
    } else if op == 0xD9 {
        sem_exx(m)
    } else if op == 0xDB {
        sem_in_a_n(m, rv)
    } else if op == 0xE3 {
        sem_ex_sp_hl(m, rv)
    } else if op == 0xE9 {
        sem_jp_hl(m)
    } else if op == 0xEB {
        sem_ex_de_hl(m)
    } else if op == 0xF1 {
        sem_pop_af(m, rv)
    } else if op == 0xF3 {
        sem_interrupt_enable(m, false)
    } else if op == 0xF5 {
        sem_push_af(m)
    } else if op == 0xF9 {
        sem_ld_sp_hl(m)
    } else {
        // 0xFB; the four prefix bytes never reach this table.
        sem_interrupt_enable(m, true)
    }
}

/// What the byte after a CB prefix does, after its fetch.
pub open spec fn sem_cb(m: Machine, sub: u8, rv: Seq<u8>) -> (Machine, u32) {
    if sub < 0x40 {
        sem_rot(m, sub, rv)
    } else if sub < 0x80 {
        sem_bit(m, sub, rv)
    } else if sub < 0xC0 {
        sem_res_set(m, sub, false, rv)
    } else {
        sem_res_set(m, sub, true, rv)
    }
}

/// What the byte after an ED prefix does, after its fetch. Every ED byte
/// not otherwise defined is a genuine 2-byte, 8 T-state no-op, including
/// 0x77 and 0x7F inside the documented 0x40-0x7F block.
pub open spec fn sem_ed(m: Machine, sub: u8, rv: Seq<u8>) -> (Machine, u32) {
    if sub == 0x40 || sub == 0x48 || sub == 0x50 || sub == 0x58 || sub == 0x60 || sub == 0x68
        || sub == 0x70 || sub == 0x78 {
        sem_in_r_c(m, sub, rv)
    } else if sub == 0x41 || sub == 0x49 || sub == 0x51 || sub == 0x59 || sub == 0x61 || sub
        == 0x69 || sub == 0x71 || sub == 0x79 {
        sem_out_c_r(m, sub)
    } else if sub == 0x42 || sub == 0x52 || sub == 0x62 || sub == 0x72 {
        sem_adc_sbc_hl_rr(m, sub, true)
    } else if sub == 0x43 || sub == 0x53 || sub == 0x63 || sub == 0x73 {
        sem_ld_nn_rr(m, pair(m.st, (sub >> 4u8) & 3), 20, rv)
    } else if sub == 0x44 || sub == 0x4C || sub == 0x54 || sub == 0x5C || sub == 0x64 || sub
        == 0x6C || sub == 0x74 || sub == 0x7C {
        sem_neg(m)
    } else if sub == 0x45 || sub == 0x55 || sub == 0x65 || sub == 0x75 || sub == 0x4D || sub
        == 0x5D || sub == 0x6D || sub == 0x7D {
        sem_ret_iff(m, rv)
    } else if sub == 0x46 || sub == 0x4E || sub == 0x66 || sub == 0x6E {
        sem_im(m, 0)
    } else if sub == 0x47 {
        sem_ld_i_a(m)
    } else if sub == 0x4A || sub == 0x5A || sub == 0x6A || sub == 0x7A {
        sem_adc_sbc_hl_rr(m, sub, false)
    } else if sub == 0x4B || sub == 0x5B || sub == 0x6B || sub == 0x7B {
        sem_ld_rr_nn_mem(m, (sub >> 4u8) & 3, 20, rv)
    } else if sub == 0x4F {
        sem_ld_r_a(m)
    } else if sub == 0x56 || sub == 0x76 {
        sem_im(m, 1)
    } else if sub == 0x57 {
        sem_ld_a_ir(m, false)
    } else if sub == 0x5E || sub == 0x7E {
        sem_im(m, 2)
    } else if sub == 0x5F {
        sem_ld_a_ir(m, true)
    } else if sub == 0x67 {
        sem_rrd_rld(m, false, rv)
    } else if sub == 0x6F {
        sem_rrd_rld(m, true, rv)
    } else if sub == 0xA0 {
        sem_ldi(m, true, false, rv)
    } else if sub == 0xA1 {
        sem_cpi(m, true, false, rv)
    } else if sub == 0xA2 {
        sem_block_io(m, false, true, false, rv)
    } else if sub == 0xA3 {
        sem_block_io(m, true, true, false, rv)
    } else if sub == 0xA8 {
        sem_ldi(m, false, false, rv)
    } else if sub == 0xA9 {
        sem_cpi(m, false, false, rv)
    } else if sub == 0xAA {
        sem_block_io(m, false, false, false, rv)
    } else if sub == 0xAB {
        sem_block_io(m, true, false, false, rv)
    } else if sub == 0xB0 {
        sem_ldi(m, true, true, rv)
    } else if sub == 0xB1 {
        sem_cpi(m, true, true, rv)
    } else if sub == 0xB2 {
        sem_block_io(m, false, true, true, rv)
    } else if sub == 0xB3 {
        sem_block_io(m, true, true, true, rv)
    } else if sub == 0xB8 {
        sem_ldi(m, false, true, rv)
    } else if sub == 0xB9 {
        sem_cpi(m, false, true, rv)
    } else if sub == 0xBA {
        sem_block_io(m, false, false, true, rv)
    } else if sub == 0xBB {
        sem_block_io(m, true, false, true, rv)
    } else {
        sem_ed_nop(m)
    }
}

/// What an opcode does after its fetch, prefixes included: a CB or ED
/// prefix fetches the byte after it (an M1 cycle) and runs it; a DD or FD
/// starts an index run.
pub open spec fn sem_main(m: Machine, op: u8, rv: Seq<u8>) -> (Machine, Result<u32, Fault>) {
    if op == 0xCB {
        let r = sem_cb(fetched(m, rv[0]), rv[0], rv.skip(1));
        (r.0, Ok(r.1))
    } else if op == 0xED {
        let r = sem_ed(fetched(m, rv[0]), rv[0], rv.skip(1));
        (r.0, Ok(r.1))
    } else if op == 0xDD || op == 0xFD {
        sem_index_run(fetched(m, rv[0]), op, rv[0], rv.skip(1), 0)
    } else {
        let r = sem_base(m, op, false, rv);
        (r.0, Ok(r.1))
    }
}

/// One instruction from its first byte: the fetched-bytes record starts
/// afresh, the opcode is fetched (an M1 cycle), and it runs.
pub open spec fn sem_decode(m: Machine, rv: Seq<u8>) -> (Machine, Result<u32, Fault>) {
    let m0 = Machine { bytes: Seq::empty(), ..m };
    sem_main(fetched(m0, rv[0]), rv[0], rv.skip(1))
}

/// The register fields of the opcodes whose handlers exclude the (HL) slot.
proof fn lemma_register_fields(op: u8)
    by (bit_vector)
    ensures
        (op == 0x04 || op == 0x0C || op == 0x14 || op == 0x1C || op == 0x24 || op == 0x2C || op
            == 0x3C || op == 0x05 || op == 0x0D || op == 0x15 || op == 0x1D || op == 0x25 || op
            == 0x2D || op == 0x3D || op == 0x44 || op == 0x45 || op == 0x4C || op == 0x4D || op
            == 0x54 || op == 0x55 || op == 0x5C || op == 0x5D || op == 0x46 || op == 0x4E || op
            == 0x56 || op == 0x5E || op == 0x66 || op == 0x6E || op == 0x7E) ==> (op >> 3u8) & 7
            != 6,
        (op == 0x60 || op == 0x61 || op == 0x62 || op == 0x63 || op == 0x67 || op == 0x68 || op
            == 0x69 || op == 0x6A || op == 0x6B || op == 0x6F || op == 0x70 || op == 0x71 || op
            == 0x72 || op == 0x73 || op == 0x74 || op == 0x75 || op == 0x77) ==> op & 7 != 6,
{
}

pub proof fn lemma_fields(op: u8)
    ensures
        (op == 0x04 || op == 0x0C || op == 0x14 || op == 0x1C || op == 0x24 || op == 0x2C || op
            == 0x3C || op == 0x05 || op == 0x0D || op == 0x15 || op == 0x1D || op == 0x25 || op
            == 0x2D || op == 0x3D || op == 0x44 || op == 0x45 || op == 0x4C || op == 0x4D || op
            == 0x54 || op == 0x55 || op == 0x5C || op == 0x5D || op == 0x46 || op == 0x4E || op
            == 0x56 || op == 0x5E || op == 0x66 || op == 0x6E || op == 0x7E) ==> (op >> 3u8) & 7
            != 6,
        (op == 0x60 || op == 0x61 || op == 0x62 || op == 0x63 || op == 0x67 || op == 0x68 || op
            == 0x69 || op == 0x6A || op == 0x6B || op == 0x6F || op == 0x70 || op == 0x71 || op
            == 0x72 || op == 0x73 || op == 0x74 || op == 0x75 || op == 0x77) ==> op & 7 != 6,
{
    lemma_register_fields(op);
}

/// Q holds what an instruction's flag output was: F when it wrote the
/// flags, 0 when it did not.
pub open spec fn q_consistent(s: crate::state::CpuState) -> bool {
    s.q == s.f || s.q == 0
}

/// Every unprefixed instruction leaves Q consistent with F.
#[verifier::rlimit(60)]
pub proof fn lemma_q_base(m: Machine, op: u8, prefixed: bool, rv: Seq<u8>)
    ensures
        q_consistent(sem_base(m, op, prefixed, rv).0.st),
{
}

/// Every CB-prefixed instruction leaves Q consistent with F.
pub proof fn lemma_q_cb(m: Machine, op: u8, rv: Seq<u8>)
    ensures
        q_consistent(sem_cb(m, op, rv).0.st),
{
}

/// Every ED-prefixed instruction leaves Q consistent with F.
#[verifier::rlimit(60)]
pub proof fn lemma_q_ed(m: Machine, op: u8, rv: Seq<u8>)
    ensures
        q_consistent(sem_ed(m, op, rv).0.st),
{
}

/// The lifecycle requests a state holds.
pub open spec fn requests(s: crate::state::CpuState) -> (bool, Option<u8>, bool) {
    (s.reset_pending, s.maskable_interrupt_vector, s.non_maskable_interrupt_pending)
}

/// No unprefixed instruction touches a lifecycle request.
pub proof fn lemma_requests_base(m: Machine, op: u8, prefixed: bool, rv: Seq<u8>)
    ensures
        requests(sem_base(m, op, prefixed, rv).0.st) == requests(m.st),
{
    let s = sem_base(m, op, prefixed, rv).0.st;
    if op < 0x40 {
        lemma_requests_base_low(m, op, prefixed, rv);
    } else if op < 0xC0 {
        assert(s.reset_pending == m.st.reset_pending);
        assert(s.maskable_interrupt_vector == m.st.maskable_interrupt_vector);
        assert(s.non_maskable_interrupt_pending == m.st.non_maskable_interrupt_pending);
    } else {
        lemma_requests_base_high(m, op, prefixed, rv);
    }
}

#[verifier::rlimit(60)]
proof fn lemma_requests_base_low(m: Machine, op: u8, prefixed: bool, rv: Seq<u8>)
    requires
        op < 0x40,
    ensures
        sem_base(m, op, prefixed, rv).0.st.reset_pending == m.st.reset_pending,
        sem_base(m, op, prefixed, rv).0.st.maskable_interrupt_vector == m.st.maskable_interrupt_vector,
        sem_base(m, op, prefixed, rv).0.st.non_maskable_interrupt_pending
            == m.st.non_maskable_interrupt_pending,
{
}

#[verifier::rlimit(60)]
proof fn lemma_requests_base_high(m: Machine, op: u8, prefixed: bool, rv: Seq<u8>)
    requires
        op >= 0xC0,
    ensures
        sem_base(m, op, prefixed, rv).0.st.reset_pending == m.st.reset_pending,
        sem_base(m, op, prefixed, rv).0.st.maskable_interrupt_vector == m.st.maskable_interrupt_vector,
        sem_base(m, op, prefixed, rv).0.st.non_maskable_interrupt_pending
            == m.st.non_maskable_interrupt_pending,
{
}

/// No CB-prefixed instruction touches a lifecycle request.
pub proof fn lemma_requests_cb(m: Machine, op: u8, rv: Seq<u8>)
    ensures
        requests(sem_cb(m, op, rv).0.st) == requests(m.st),
{
}

/// No ED-prefixed instruction touches a lifecycle request.
#[verifier::rlimit(60)]
pub proof fn lemma_requests_ed(m: Machine, op: u8, rv: Seq<u8>)
    ensures
        requests(sem_ed(m, op, rv).0.st) == requests(m.st),
{
}

/// `after` begins with every exchange of `before`, in order: a step only
/// adds to the bus traffic.
pub open spec fn extends(before: Seq<BusOp>, after: Seq<BusOp>) -> bool {
    before.len() <= after.len() && forall|i: int| 0 <= i < before.len() ==> #[trigger] after[i] == before[i]
}

/// An unprefixed instruction only adds to the bus traffic.
pub proof fn lemma_ops_base(m: Machine, op: u8, prefixed: bool, rv: Seq<u8>)
    ensures
        extends(m.ops, sem_base(m, op, prefixed, rv).0.ops),
{
    if op < 0x40 {
        lemma_ops_base_low(m, op, prefixed, rv);
    } else if op < 0xC0 {
        lemma_ops_base_mid(m, op, prefixed, rv);
    } else {
        lemma_ops_base_high(m, op, prefixed, rv);
    }
}

#[verifier::rlimit(80)]
proof fn lemma_ops_base_low(m: Machine, op: u8, prefixed: bool, rv: Seq<u8>)
    requires
        op < 0x40,
    ensures
        extends(m.ops, sem_base(m, op, prefixed, rv).0.ops),
{
}

#[verifier::rlimit(80)]
proof fn lemma_ops_base_mid(m: Machine, op: u8, prefixed: bool, rv: Seq<u8>)
    requires
        0x40 <= op < 0xC0,
    ensures
        extends(m.ops, sem_base(m, op, prefixed, rv).0.ops),
{
}

#[verifier::rlimit(80)]
proof fn lemma_ops_base_high(m: Machine, op: u8, prefixed: bool, rv: Seq<u8>)
    requires
        op >= 0xC0,
    ensures
        extends(m.ops, sem_base(m, op, prefixed, rv).0.ops),
{
}

/// A CB-prefixed instruction only adds to the bus traffic.
#[verifier::rlimit(80)]
pub proof fn lemma_ops_cb(m: Machine, op: u8, rv: Seq<u8>)
    ensures
        extends(m.ops, sem_cb(m, op, rv).0.ops),
{
}

/// An ED-prefixed instruction only adds to the bus traffic.
#[verifier::rlimit(80)]
pub proof fn lemma_ops_ed(m: Machine, op: u8, rv: Seq<u8>)
    ensures
        extends(m.ops, sem_ed(m, op, rv).0.ops),
{
}

/// A DD/FD prefix changes only SCF and CCF among the base-set
/// instructions (through Q).
#[verifier::rlimit(60)]
pub proof fn lemma_prefix_flag_only_scf_ccf(m: Machine, op: u8, rv: Seq<u8>)
    requires
        op != 0x37 && op != 0x3F,
    ensures
        sem_base(m, op, true, rv) == sem_base(m, op, false, rv),
{
}

impl<B: Bus> Z80<B> {
    /// Fetch and execute one instruction, returning its documented T-states.
    ///
    /// This is the instruction-only entry point; [`Z80::step`] is the host
    /// entry point that services lifecycle requests first.
    pub fn decode_and_execute(&mut self) -> (r: Result<u32, Fault>)
        ensures
            host_kept(old(self).bus, final(self).bus),
            stepped_res(*old(self), *final(self), r, sem_decode(old(self).m(), new_replies(*old(self), *final(self)))),
    {
        self.fetched.truncate(0);
        assert(self.fetched@ =~= Seq::<u8>::empty());
        assert(self.m() == (Machine { bytes: Seq::empty(), ..old(self).m() }));
        let opcode = self.fetch_byte();
        let ghost mid = *self;
        let r = self.execute_main(opcode);
        proof {
            lemma_replies_push(old(self).replies@, opcode, self.replies@);
            lemma_replies_chain(old(self).replies@, mid.replies@, self.replies@);
        }
        r
    }

    pub fn execute_cb(&mut self, sub_opcode: u8) -> (t: u32)
        ensures
            host_kept(old(self).bus, final(self).bus),
            stepped(*old(self), *final(self), t, sem_cb(old(self).m(), sub_opcode, new_replies(*old(self), *final(self)))),
    {
        if sub_opcode < 0x40 {
            self.op_rot(sub_opcode)
        } else if sub_opcode < 0x80 {
            self.op_bit(sub_opcode)
        } else if sub_opcode < 0xC0 {
            self.op_res(sub_opcode)
        } else {
            self.op_set(sub_opcode)
        }
    }

    pub fn execute_main(&mut self, opcode: u8) -> (r: Result<u32, Fault>)
        ensures
            host_kept(old(self).bus, final(self).bus),
            stepped_res(*old(self), *final(self), r, sem_main(old(self).m(), opcode, new_replies(*old(self), *final(self)))),
    {
        if opcode == 0xCB {
            let sub_opcode = self.fetch_byte();
            let ghost mid = *self;
            let t = self.execute_cb(sub_opcode);
            proof {
                lemma_replies_push(old(self).replies@, sub_opcode, self.replies@);
                lemma_replies_chain(old(self).replies@, mid.replies@, self.replies@);
            }
            Ok(t)
        } else if opcode == 0xED {
            let sub_opcode = self.fetch_byte();
            let ghost mid = *self;
            let t = self.execute_ed(sub_opcode);
            proof {
                lemma_replies_push(old(self).replies@, sub_opcode, self.replies@);
                lemma_replies_chain(old(self).replies@, mid.replies@, self.replies@);
            }
            Ok(t)
        } else if opcode == 0xDD || opcode == 0xFD {
            let sub_opcode = self.fetch_byte();
            let ghost mid = *self;
            let r = self.execute_index(opcode, sub_opcode);
            proof {
                lemma_replies_push(old(self).replies@, sub_opcode, self.replies@);
                lemma_replies_chain(old(self).replies@, mid.replies@, self.replies@);
            }
            r
        } else {
            Ok(self.execute_base(opcode, false))
        }
    }

    /// Run an opcode that is not a prefix byte; `prefixed` when a DD/FD
    /// prefix preceded it (only SCF/CCF observe that).
    pub fn execute_base(&mut self, opcode: u8, prefixed: bool) -> (t: u32)
        requires
            !is_prefix(opcode),
        ensures
            host_kept(old(self).bus, final(self).bus),
            stepped(*old(self), *final(self), t, sem_base(old(self).m(), opcode, prefixed, new_replies(*old(self), *final(self)))),
    {
        proof {
            lemma_fields(opcode);
        }
        match opcode {
            0x00 => self.op_nop(),
            0x01 | 0x11 | 0x21 | 0x31 => self.op_ld_rr_nn(opcode),
            0x02 => {
                let a = self.bc();
                self.op_ld_irr_a(a)
            },
            0x12 => {
                let a = self.de();
                self.op_ld_irr_a(a)
            },
            0x03 | 0x13 | 0x23 | 0x33 => self.op_inc_rr(opcode),
            0x04 | 0x0C | 0x14 | 0x1C | 0x24 | 0x2C | 0x3C => self.op_inc_r(opcode),
            0x05 | 0x0D | 0x15 | 0x1D | 0x25 | 0x2D | 0x3D => self.op_dec_r(opcode),
            0x06 | 0x0E | 0x16 | 0x1E | 0x26 | 0x2E | 0x36 | 0x3E => self.op_ld_r_n(opcode),
            0x07 => self.op_rlca(),
            0x08 => self.op_ex_af_af(),
            0x09 | 0x19 | 0x29 | 0x39 => self.op_add_hl_rr(opcode),
            0x0A => {
                let a = self.bc();
                self.op_ld_a_irr(a)
            },
            0x1A => {
                let a = self.de();
                self.op_ld_a_irr(a)
            },
            0x0B | 0x1B | 0x2B | 0x3B => self.op_dec_rr(opcode),
            0x0F => self.op_rrca(),
            0x10 => self.op_djnz(),
            0x17 => self.op_rla(),
            0x18 | 0x20 | 0x28 | 0x30 | 0x38 => self.op_jr(opcode),
            0x1F => self.op_rra(),
            0x22 => self.op_ld_nn_hl(),
            0x27 => self.op_daa(),
            0x2A => self.op_ld_hl_nn_from_mem(),
            0x2F => self.op_cpl(),
            0x32 => self.op_ld_inn_a(),
            0x34 => self.op_inc_hl(),
            0x35 => self.op_dec_hl(),
            0x37 | 0x3F => self.op_scf_ccf(opcode, prefixed),
            0x3A => self.op_ld_a_inn(),
            0x76 => self.op_halt(),
            0x40..=0x75 | 0x77..=0x7F => self.op_ld_r_r(opcode),
            0x80..=0xBF => self.op_alu_r(opcode),
            0xC0 | 0xC8 | 0xD0 | 0xD8 | 0xE0 | 0xE8 | 0xF0 | 0xF8 => self.op_ret_cc(opcode),
            0xC1 | 0xD1 | 0xE1 => self.op_pop_rr(opcode),
            0xC2 | 0xCA | 0xD2 | 0xDA | 0xE2 | 0xEA | 0xF2 | 0xFA | 0xC3 => self.op_jp(opcode),
            0xC4 | 0xCC | 0xD4 | 0xDC | 0xE4 | 0xEC | 0xF4 | 0xFC | 0xCD => self.op_call(opcode),
            0xC5 | 0xD5 | 0xE5 => self.op_push_rr(opcode),
            0xC6 | 0xCE | 0xD6 | 0xDE | 0xE6 | 0xEE | 0xF6 | 0xFE => self.op_alu_n(opcode),
            0xC7 | 0xCF | 0xD7 | 0xDF | 0xE7 | 0xEF | 0xF7 | 0xFF => self.op_rst(opcode),
            0xC9 => self.op_ret(),
            0xD3 => self.op_out_n_a(),
            0xD9 => self.op_exx(),
            0xDB => self.op_in_a_n(),
            0xE3 => self.op_ex_sp_hl(),
            0xE9 => self.op_jp_hl(),
            0xEB => self.op_ex_de_hl(),
            0xF1 => self.op_pop_af(),
            0xF3 => self.op_interrupt_enable(false),
            0xF5 => self.op_push_af(),
            0xF9 => self.op_ld_sp_hl(),
            _ => self.op_interrupt_enable(true),
        }
    }

    /// Dispatch the byte after an ED prefix: every defined opcode named, and
    /// every other ED byte a 2-byte, 8 T-state no-op, as on real silicon.
    pub fn execute_ed(&mut self, opcode: u8) -> (t: u32)
        ensures
            host_kept(old(self).bus, final(self).bus),
            stepped(*old(self), *final(self), t, sem_ed(old(self).m(), opcode, new_replies(*old(self), *final(self)))),
    {
        match opcode {
            0x40 | 0x48 | 0x50 | 0x58 | 0x60 | 0x68 | 0x70 | 0x78 => self.op_in_r_c(opcode),
            0x41 | 0x49 | 0x51 | 0x59 | 0x61 | 0x69 | 0x71 | 0x79 => self.op_out_c_r(opcode),
            0x42 | 0x52 | 0x62 | 0x72 => self.op_sbc_hl_rr(opcode),
            0x43 | 0x53 | 0x63 | 0x73 => self.op_ld_nn_rr((opcode >> 4u8) & 0x03),
            0x44 | 0x4C | 0x54 | 0x5C | 0x64 | 0x6C | 0x74 | 0x7C => self.op_neg(),
            0x45 | 0x55 | 0x65 | 0x75 => self.op_retn(),
            0x4D | 0x5D | 0x6D | 0x7D => self.op_reti(),
            0x46 | 0x4E | 0x66 | 0x6E => self.op_im(0),
            0x47 => self.op_ld_i_a(),
            0x4A | 0x5A | 0x6A | 0x7A => self.op_adc_hl_rr(opcode),
            0x4B | 0x5B | 0x6B | 0x7B => self.op_ld_rr_nn_from_mem((opcode >> 4u8) & 0x03),
            0x4F => self.op_ld_r_a(),
            0x56 | 0x76 => self.op_im(1),
            0x57 => self.op_ld_a_i(),
            0x5E | 0x7E => self.op_im(2),
            0x5F => self.op_ld_a_r(),
            0x67 => self.op_rrd(),
            0x6F => self.op_rld(),
            0xA0 => self.op_ldi(),
            0xA1 => self.op_cpi(),
            0xA2 => self.op_ini(),
            0xA3 => self.op_outi(),
            0xA8 => self.op_ldd(),
            0xA9 => self.op_cpd(),
            0xAA => self.op_ind(),
            0xAB => self.op_outd(),
            0xB0 => self.op_ldir(),
            0xB1 => self.op_cpir(),
            0xB2 => self.op_inir(),
            0xB3 => self.op_otir(),
            0xB8 => self.op_lddr(),
            0xB9 => self.op_cpdr(),
            0xBA => self.op_indr(),
            0xBB => self.op_otdr(),
            _ => self.op_ed_nop(),
        }
    }
}

} // verus!
