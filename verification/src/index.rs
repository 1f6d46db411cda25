//! IX/IY instruction handlers: every handler here names an IX or IY operand.
//!
//! Base-set instructions that a DD/FD prefix merely decorates live with their
//! own instruction group; `index_dispatch` routes them and adds the prefix cost.

use vstd::prelude::*;

use crate::alu::{
    add16_keep, add16_keep_flags, add16_res, add8_res, alu_m, dec8, dec8_flags, flag_if, inc8, inc8_flags,
    sub8_res, with_f,
};
use crate::control::{add_displacement, jump, rel};
use crate::processor::{
    bc, de, hi, lo, logged, new_replies, operand, BusKind, operand2, pair, popped, pushed, q_clear, q_set, rd, reg,
    set_reg, stepped, with_st, word, wr, host_kept, Bus, Machine, Z80,
};
use crate::flags::{FLAG_C, FLAG_H, FLAG_PV, FLAG_S, FLAG_X, FLAG_Y, FLAG_Z};
use crate::rotate::{
    bit_flags_spec, lemma_bit_flag_parts, lemma_mask_bits, lemma_rot_flags, lemma_rot_values, rot_flags, rot_spec,
};
use crate::state::CpuState;

verus! {

broadcast use crate::flags::group_masks;

/// IX for prefix 0xDD, IY otherwise.
pub open spec fn idx(s: CpuState, prefix: u8) -> u16 {
    if prefix == 0xDD {
        s.ix
    } else {
        s.iy
    }
}

pub open spec fn set_idx(s: CpuState, prefix: u8, v: u16) -> CpuState {
    if prefix == 0xDD {
        CpuState { ix: v, ..s }
    } else {
        CpuState { iy: v, ..s }
    }
}

/// IXH/IYH (`high`) or IXL/IYL.
pub open spec fn idx_byte(s: CpuState, prefix: u8, high: bool) -> u8 {
    if high {
        hi(idx(s, prefix))
    } else {
        lo(idx(s, prefix))
    }
}

pub open spec fn set_idx_byte(s: CpuState, prefix: u8, high: bool, v: u8) -> CpuState {
    let x = idx(s, prefix);
    set_idx(
        s,
        prefix,
        if high {
            word(v, lo(x))
        } else {
            word(hi(x), v)
        },
    )
}

pub open spec fn sem_add_index_rr(m: Machine, prefix: u8, sub_opcode: u8) -> (Machine, u32) {
    let pi = (sub_opcode >> 4u8) & 3;
    let x = idx(m.st, prefix);
    let y = if pi == 2 {
        x
    } else {
        pair(m.st, pi)
    };
    let s1 = CpuState { wz: x.wrapping_add(1), f: add16_keep_flags(x, y, m.st.f), ..m.st };
    (q_set(with_st(m, set_idx(s1, prefix, add16_res(x, y, 0)))), 15)
}

pub open spec fn sem_ld_index_nn(m: Machine, prefix: u8, rv: Seq<u8>) -> (Machine, u32) {
    let m1 = operand2(m, rv[0], rv[1]);
    (q_clear(with_st(m1, set_idx(m1.st, prefix, word(rv[1], rv[0])))), 14)
}

pub open spec fn sem_ld_index_nn_mem(m: Machine, prefix: u8, rv: Seq<u8>) -> (Machine, u32) {
    let m1 = operand2(m, rv[0], rv[1]);
    let addr = word(rv[1], rv[0]);
    let a1 = addr.wrapping_add(1);
    let m2 = logged(logged(m1, rd(addr, rv[2])), rd(a1, rv[3]));
    (q_clear(with_st(m2, set_idx(CpuState { wz: a1, ..m1.st }, prefix, word(rv[3], rv[2])))), 20)
}

/// LD A,IXH/IXL (and the IY forms): 4 T-states without the prefix.
pub open spec fn sem_ld_a_index_byte(m: Machine, prefix: u8, high: bool) -> (Machine, u32) {
    (q_clear(with_st(m, CpuState { a: idx_byte(m.st, prefix, high), ..m.st })), 4)
}

/// LD r,IXH/IXL: the source half by bit pattern 4 (high) or 5 (low).
pub open spec fn sem_ld_r_index_byte(m: Machine, prefix: u8, sub_opcode: u8) -> (Machine, u32) {
    let v = idx_byte(m.st, prefix, sub_opcode & 7 == 4);
    (q_clear(with_st(m, set_reg(m.st, (sub_opcode >> 3u8) & 7, v))), 4)
}

pub open spec fn sem_ld_index_byte_index_byte(m: Machine, prefix: u8, sub_opcode: u8) -> (Machine, u32) {
    let v = idx_byte(m.st, prefix, sub_opcode & 7 == 4);
    (q_clear(with_st(m, set_idx_byte(m.st, prefix, (sub_opcode >> 3u8) & 7 == 4, v))), 4)
}

pub open spec fn sem_ld_index_byte_r(m: Machine, prefix: u8, sub_opcode: u8) -> (Machine, u32) {
    let v = reg(m.st, sub_opcode & 7);
    (q_clear(with_st(m, set_idx_byte(m.st, prefix, (sub_opcode >> 3u8) & 7 == 4, v))), 4)
}

pub open spec fn sem_ld_index_byte_n(m: Machine, prefix: u8, sub_opcode: u8, rv: Seq<u8>) -> (Machine, u32) {
    let m1 = operand(m, rv[0]);
    (q_clear(with_st(m1, set_idx_byte(m1.st, prefix, (sub_opcode >> 3u8) & 7 == 4, rv[0]))), 7)
}

/// INC/DEC IXH/IXL (and IY): the half by bits 3-5, INC when bits 0-2 are 4.
pub open spec fn sem_inc_dec_index_byte(m: Machine, prefix: u8, sub_opcode: u8) -> (Machine, u32) {
    let high = (sub_opcode >> 3u8) & 7 == 4;
    let x = idx_byte(m.st, prefix, high);
    let inc = sub_opcode & 7 == 4;
    let r = if inc {
        add8_res(x, 1, 0)
    } else {
        sub8_res(x, 1, 0)
    };
    let f = if inc {
        inc8_flags(x, m.st.f)
    } else {
        dec8_flags(x, m.st.f)
    };
    (q_set(with_st(m, CpuState { f, ..set_idx_byte(m.st, prefix, high, r) })), 4)
}

/// ADD/ADC/SUB/SBC/AND/XOR/OR/CP A,IXH/IXL (and IY).
pub open spec fn sem_alu_index_byte(m: Machine, prefix: u8, group: u8, high: bool) -> (Machine, u32) {
    (q_set(alu_m(m, group, idx_byte(m.st, prefix, high))), 4)
}

/// INC IX/IY (`dec` false) / DEC: no flags.
pub open spec fn sem_inc_dec_index(m: Machine, prefix: u8, dec: bool) -> (Machine, u32) {
    let x = idx(m.st, prefix);
    let v = if dec {
        x.wrapping_sub(1)
    } else {
        x.wrapping_add(1)
    };
    (q_clear(with_st(m, set_idx(m.st, prefix, v))), 10)
}

pub open spec fn sem_pop_index(m: Machine, prefix: u8, rv: Seq<u8>) -> (Machine, u32) {
    let m1 = popped(m, rv[0], rv[1]);
    (q_clear(with_st(m1, set_idx(m1.st, prefix, word(rv[1], rv[0])))), 14)
}

pub open spec fn sem_push_index(m: Machine, prefix: u8) -> (Machine, u32) {
    (q_clear(pushed(m, idx(m.st, prefix))), 15)
}

/// EX (SP),IX/IY: the word at SP and the index register trade places.
pub open spec fn sem_ex_sp_index(m: Machine, prefix: u8, rv: Seq<u8>) -> (Machine, u32) {
    let sp = m.st.sp;
    let sp1 = sp.wrapping_add(1);
    let x = idx(m.st, prefix);
    let m1 = Machine {
        ops: m.ops + seq![rd(sp, rv[0]), rd(sp1, rv[1]), wr(sp, lo(x)), wr(sp1, hi(x))],
        ..m
    };
    let v = word(rv[1], rv[0]);
    (q_clear(with_st(m1, CpuState { wz: v, ..set_idx(m.st, prefix, v) })), 23)
}

pub open spec fn sem_jp_index(m: Machine, prefix: u8) -> (Machine, u32) {
    (q_clear(with_st(m, CpuState { pc: idx(m.st, prefix), ..m.st })), 8)
}

pub open spec fn sem_ld_sp_index(m: Machine, prefix: u8) -> (Machine, u32) {
    (q_clear(with_st(m, CpuState { sp: idx(m.st, prefix), ..m.st })), 10)
}

/// The (IX+d)/(IY+d) address for displacement byte `d`, latched into WZ.
pub open spec fn at_disp(m: Machine, prefix: u8, d: u8) -> Machine {
    with_st(m, CpuState { wz: rel(idx(m.st, prefix), d), ..m.st })
}

/// BIT b,(IX+d): X/Y from the high byte of the address.
pub open spec fn sem_index_bit(m: Machine, prefix: u8, d: u8, sub_opcode: u8, rv: Seq<u8>) -> (Machine, u32) {
    let m1 = at_disp(m, prefix, d);
    let addr = m1.st.wz;
    let f = bit_flags_spec(m.st.f, rv[0], (sub_opcode >> 3u8) & 7, hi(addr));
    (q_set(with_f(logged(m1, rd(addr, rv[0])), f)), 20)
}

/// Rotate/shift (IX+d); the undocumented forms also copy the result into r.
pub open spec fn sem_index_rot(m: Machine, prefix: u8, d: u8, sub_opcode: u8, rv: Seq<u8>) -> (Machine, u32) {
    let m1 = at_disp(m, prefix, d);
    let addr = m1.st.wz;
    let r = rot_spec((sub_opcode >> 3u8) & 7, rv[0], m.st.f & 1);
    let m2 = with_f(logged(logged(m1, rd(addr, rv[0])), wr(addr, r.0)), rot_flags(r.0, r.1));
    let dest = sub_opcode & 7;
    (q_set(if dest != 6 {
        with_st(m2, set_reg(m2.st, dest, r.0))
    } else {
        m2
    }), 23)
}

/// RES/SET b,(IX+d); the undocumented forms also copy the result into r.
pub open spec fn sem_index_res_set(m: Machine, prefix: u8, d: u8, sub_opcode: u8, set: bool, rv: Seq<u8>) -> (Machine, u32) {
    let m1 = at_disp(m, prefix, d);
    let addr = m1.st.wz;
    let mask = 1u8 << ((sub_opcode >> 3u8) & 7);
    let v = if set {
        rv[0] | mask
    } else {
        rv[0] & !mask
    };
    let m2 = logged(logged(m1, rd(addr, rv[0])), wr(addr, v));
    let dest = sub_opcode & 7;
    (q_clear(if dest != 6 {
        with_st(m2, set_reg(m2.st, dest, v))
    } else {
        m2
    }), 23)
}

/// INC (IX+d) (`dec` false) / DEC (IX+d).
pub open spec fn sem_inc_dec_index_mem(m: Machine, prefix: u8, dec: bool, rv: Seq<u8>) -> (Machine, u32) {
    let m1 = at_disp(operand(m, rv[0]), prefix, rv[0]);
    let addr = m1.st.wz;
    let x = rv[1];
    let r = if dec {
        sub8_res(x, 1, 0)
    } else {
        add8_res(x, 1, 0)
    };
    let f = if dec {
        dec8_flags(x, m.st.f)
    } else {
        inc8_flags(x, m.st.f)
    };
    (q_set(with_f(logged(logged(m1, rd(addr, x)), wr(addr, r)), f)), 23)
}

pub open spec fn sem_ld_r_index_mem(m: Machine, prefix: u8, sub_opcode: u8, rv: Seq<u8>) -> (Machine, u32) {
    let m1 = at_disp(operand(m, rv[0]), prefix, rv[0]);
    let m2 = logged(m1, rd(m1.st.wz, rv[1]));
    (q_clear(with_st(m2, set_reg(m2.st, (sub_opcode >> 3u8) & 7, rv[1]))), 19)
}

pub open spec fn sem_ld_index_mem_r(m: Machine, prefix: u8, sub_opcode: u8, rv: Seq<u8>) -> (Machine, u32) {
    let m1 = at_disp(operand(m, rv[0]), prefix, rv[0]);
    (q_clear(logged(m1, wr(m1.st.wz, reg(m.st, sub_opcode & 7)))), 19)
}

/// LD (IX+d),n: the displacement comes before the immediate.
pub open spec fn sem_ld_index_mem_n(m: Machine, prefix: u8, rv: Seq<u8>) -> (Machine, u32) {
    let m1 = at_disp(operand(m, rv[0]), prefix, rv[0]);
    let m2 = operand(m1, rv[1]);
    (q_clear(logged(m2, wr(m1.st.wz, rv[1]))), 19)
}

/// ADD/ADC/SUB/SBC/AND/XOR/OR/CP A,(IX+d).
pub open spec fn sem_indexed_alu(m: Machine, prefix: u8, group: u8, rv: Seq<u8>) -> (Machine, u32) {
    let m1 = at_disp(operand(m, rv[0]), prefix, rv[0]);
    (q_set(alu_m(logged(m1, rd(m1.st.wz, rv[1])), group, rv[1])), 19)
}

/// The (IX+d)/(IY+d) address is the index register plus the displacement
/// byte read as a two's-complement number, modulo 65536: a byte below 0x80
/// adds itself, one from 0x80 up takes `256 - d` away. The address is latched
/// into WZ and nothing else of the machine changes.
pub proof fn lemma_index_address(m: Machine, prefix: u8, d: u8)
    ensures
        d < 0x80 ==> at_disp(m, prefix, d).st.wz as int == (idx(m.st, prefix) as int + d as int) % 65536,
        d >= 0x80 ==> at_disp(m, prefix, d).st.wz as int == (idx(m.st, prefix) as int - (256 - d as int)) % 65536,
        at_disp(m, prefix, d) == with_st(m, CpuState { wz: at_disp(m, prefix, d).st.wz, ..m.st }),
{
}

/// LD r,(IX+d): after the displacement byte `rv[0]` is fetched from PC, the
/// byte is read from IX/IY plus `rv[0]` taken as signed, modulo 65536; that
/// address stays in WZ and the byte read lands in r.
pub proof fn lemma_ld_r_index_mem_address(m: Machine, prefix: u8, sub_opcode: u8, rv: Seq<u8>)
    requires
        (sub_opcode >> 3u8) & 7 != 6,
    ensures
        ({
            let out = sem_ld_r_index_mem(m, prefix, sub_opcode, rv).0;
            let d = rv[0];
            let target = (idx(m.st, prefix) as int + d as int - (if d >= 0x80 { 256int } else { 0int })) % 65536;
            &&& out.st.wz as int == target
            &&& out.ops == m.ops.push(rd(m.st.pc, d)).push(rd(out.st.wz, rv[1]))
            &&& reg(out.st, (sub_opcode >> 3u8) & 7) == rv[1]
            &&& out.st.pc == m.st.pc.wrapping_add(1)
        }),
{
    let r = (sub_opcode >> 3u8) & 7;
    let m1 = at_disp(operand(m, rv[0]), prefix, rv[0]);
    let m2 = logged(m1, rd(m1.st.wz, rv[1]));
    assert(reg(set_reg(m2.st, r, rv[1]), r) == rv[1]);
}

/// The other (IX+d) forms with a displacement operand -- LD (IX+d),r,
/// LD (IX+d),n, INC/DEC (IX+d) and the ALU operations on (IX+d) -- read and
/// write the byte at IX/IY plus the displacement taken as signed, modulo
/// 65536, and leave that address in WZ.
pub proof fn lemma_index_operand_forms_address(m: Machine, prefix: u8, sub_opcode: u8, dec: bool, group: u8, rv: Seq<u8>)
    ensures
        ({
            let d = rv[0];
            let target = (idx(m.st, prefix) as int + d as int - (if d >= 0x80 { 256int } else { 0int })) % 65536;
            let st = sem_ld_index_mem_r(m, prefix, sub_opcode, rv).0;
            let sn = sem_ld_index_mem_n(m, prefix, rv).0;
            let id = sem_inc_dec_index_mem(m, prefix, dec, rv).0;
            let al = sem_indexed_alu(m, prefix, group, rv).0;
            &&& st.st.wz as int == target
            &&& st.ops.last() == wr(st.st.wz, reg(m.st, sub_opcode & 7))
            &&& sn.st.wz as int == target
            &&& sn.ops.last() == wr(sn.st.wz, rv[1])
            &&& id.st.wz as int == target
            &&& id.ops[id.ops.len() - 2] == rd(id.st.wz, rv[1])
            &&& id.ops.last().kind == BusKind::MemWrite
            &&& id.ops.last().addr == id.st.wz
            &&& al.st.wz as int == target
            &&& al.ops.last() == rd(al.st.wz, rv[1])
        }),
{
}

/// BIT, the rotates and shifts, and RES/SET on (IX+d) with displacement `d`
/// (DD CB d op / FD CB d op) read, and but for BIT write back, the byte at
/// IX/IY plus `d` taken as signed, modulo 65536; WZ holds that address.
pub proof fn lemma_index_cb_address(m: Machine, prefix: u8, d: u8, sub_opcode: u8, set: bool, rv: Seq<u8>)
    ensures
        ({
            let target = (idx(m.st, prefix) as int + d as int - (if d >= 0x80 { 256int } else { 0int })) % 65536;
            let bt = sem_index_bit(m, prefix, d, sub_opcode, rv).0;
            let ro = sem_index_rot(m, prefix, d, sub_opcode, rv).0;
            let rs = sem_index_res_set(m, prefix, d, sub_opcode, set, rv).0;
            &&& bt.st.wz as int == target
            &&& bt.ops == m.ops.push(rd(bt.st.wz, rv[0]))
            &&& ro.st.wz as int == target
            &&& ro.ops.len() == m.ops.len() + 2
            &&& ro.ops.drop_last().last() == rd(ro.st.wz, rv[0])
            &&& ro.ops.last().kind == BusKind::MemWrite
            &&& ro.ops.last().addr == ro.st.wz
            &&& rs.st.wz as int == target
            &&& rs.ops.len() == m.ops.len() + 2
            &&& rs.ops.drop_last().last() == rd(rs.st.wz, rv[0])
            &&& rs.ops.last().kind == BusKind::MemWrite
            &&& rs.ops.last().addr == rs.st.wz
        }),
{
    let m1 = at_disp(m, prefix, d);
    let a = m1.st.wz;
    let r = rot_spec((sub_opcode >> 3u8) & 7, rv[0], m.st.f & 1);
    let l2 = logged(logged(m1, rd(a, rv[0])), wr(a, r.0));
    assert(l2.ops.drop_last() == m.ops.push(rd(a, rv[0])));
    let mask = 1u8 << ((sub_opcode >> 3u8) & 7);
    let v = if set { rv[0] | mask } else { rv[0] & !mask };
    let l3 = logged(logged(m1, rd(a, rv[0])), wr(a, v));
    assert(l3.ops.drop_last() == m.ops.push(rd(a, rv[0])));
}

/// RR (IX+d) (DD CB d 1E and its undocumented copies into r): the carry flag
/// held before the instruction enters bit 7 of the byte and bit 0 leaves into
/// C, so the byte written back -- and copied into r where the form names one
/// -- is `x / 2 + 128 * C`.
pub proof fn lemma_index_rr(m: Machine, prefix: u8, d: u8, sub_opcode: u8, rv: Seq<u8>)
    requires
        (sub_opcode >> 3u8) & 7 == 3,
    ensures
        ({
            let x = rv[0];
            let out = sem_index_rot(m, prefix, d, sub_opcode, rv).0;
            let res = x as int / 2 + 128 * (m.st.f & 1) as int;
            &&& out.ops.last().value as int == res
            &&& sub_opcode & 7 != 6 ==> reg(out.st, sub_opcode & 7) as int == res
            &&& out.st.f & FLAG_C == x % 2
        }),
{
    let x = rv[0];
    let c = m.st.f & 1;
    lemma_rot_values(x, c);
    let r = rot_spec(3, x, c);
    lemma_rot_flags(r.0, r.1);
    let dest = sub_opcode & 7;
    let m1 = at_disp(m, prefix, d);
    let m2 = with_f(logged(logged(m1, rd(m1.st.wz, x)), wr(m1.st.wz, r.0)), rot_flags(r.0, r.1));
    if dest != 6 {
        assert(reg(set_reg(m2.st, dest, r.0), dest) == r.0);
        assert(set_reg(m2.st, dest, r.0).f == m2.st.f);
    }
}

pub(crate) proof fn lemma_halves_arith(x: u16, v: u8)
    by (bit_vector)
    ensures
        ((x >> 8u16) as u8) as int == x / 256,
        (x as u8) as int == x % 256,
        (((v as u16) << 8u16) | ((x as u8) as u16)) as int == v * 256 + x % 256,
        (((((x >> 8u16) as u8) as u16) << 8u16) | (v as u16)) as int == (x / 256) * 256 + v,
{
}

/// IXH/IXL (and IYH/IYL) are the high and low bytes of the index register:
/// IXH is `IX / 256`, IXL is `IX % 256`. Writing a half sets that byte of the
/// register and keeps the other byte, the other index register and every
/// other register.
pub proof fn lemma_index_halves(s: CpuState, prefix: u8, high: bool, v: u8)
    ensures
        idx_byte(s, prefix, true) as int == idx(s, prefix) as int / 256,
        idx_byte(s, prefix, false) as int == idx(s, prefix) as int % 256,
        high ==> idx(set_idx_byte(s, prefix, high, v), prefix) as int == v as int * 256 + idx(s, prefix) as int % 256,
        !high ==> idx(set_idx_byte(s, prefix, high, v), prefix) as int == (idx(s, prefix) as int / 256) * 256 + v as int,
        prefix == 0xDD ==> set_idx_byte(s, prefix, high, v) == (CpuState { ix: set_idx_byte(s, prefix, high, v).ix, ..s }),
        prefix != 0xDD ==> set_idx_byte(s, prefix, high, v) == (CpuState { iy: set_idx_byte(s, prefix, high, v).iy, ..s }),
{
    lemma_halves_arith(idx(s, prefix), v);
}

/// INC and DEC of IXH/IXL (and IY): the chosen half (IXH when bits 3-5 of the
/// opcode are 4) goes up (bits 0-2 are 4) or down by one modulo 256; the other
/// half is kept.
pub proof fn lemma_inc_dec_index_half(m: Machine, prefix: u8, sub_opcode: u8)
    ensures
        ({
            let high = (sub_opcode >> 3u8) & 7 == 4;
            let out = sem_inc_dec_index_byte(m, prefix, sub_opcode).0;
            let x = if high { idx(m.st, prefix) as int / 256 } else { idx(m.st, prefix) as int % 256 };
            let nx = if high { idx(out.st, prefix) as int / 256 } else { idx(out.st, prefix) as int % 256 };
            let other = if high { idx(m.st, prefix) as int % 256 } else { idx(m.st, prefix) as int / 256 };
            let nother = if high { idx(out.st, prefix) as int % 256 } else { idx(out.st, prefix) as int / 256 };
            &&& sub_opcode & 7 == 4 ==> nx == (x + 1) % 256
            &&& sub_opcode & 7 != 4 ==> nx == (x - 1) % 256
            &&& nother == other
        }),
{
    let high = (sub_opcode >> 3u8) & 7 == 4;
    let x = idx_byte(m.st, prefix, high);
    let r = if sub_opcode & 7 == 4 { add8_res(x, 1, 0) } else { sub8_res(x, 1, 0) };
    let f = if sub_opcode & 7 == 4 { inc8_flags(x, m.st.f) } else { dec8_flags(x, m.st.f) };
    let s1 = set_idx_byte(m.st, prefix, high, r);
    lemma_index_halves(m.st, prefix, high, r);
    assert(idx(CpuState { f, ..s1 }, prefix) == idx(s1, prefix));
    let n = idx(s1, prefix) as int;
    let o = idx(m.st, prefix) as int;
    if high {
        assert(n == r as int * 256 + o % 256);
        assert(n / 256 == r as int && n % 256 == o % 256) by (nonlinear_arith)
            requires n == r as int * 256 + o % 256, 0 <= r < 256, 0 <= o,;
    } else {
        assert(n == (o / 256) * 256 + r as int);
        assert(n / 256 == o / 256 && n % 256 == r as int) by (nonlinear_arith)
            requires n == (o / 256) * 256 + r as int, 0 <= r < 256, 0 <= o,;
    }
}

/// BIT, RES and SET b,(IX+d) on the byte `x` read at (IX+d): BIT sets Z
/// exactly when bit b of `x` is 0 and keeps C; RES/SET write back `x` with
/// bit b cleared or set and every other bit kept, copy that byte into r in
/// the forms that name one, and leave F alone.
pub proof fn lemma_index_bit_res_set(m: Machine, prefix: u8, d: u8, sub_opcode: u8, set: bool, rv: Seq<u8>)
    ensures
        ({
            let b = (sub_opcode >> 3u8) & 7;
            let x = rv[0];
            let bt = sem_index_bit(m, prefix, d, sub_opcode, rv).0;
            let rs = sem_index_res_set(m, prefix, d, sub_opcode, set, rv).0;
            let v = rs.ops.last().value;
            &&& (bt.st.f & FLAG_Z == FLAG_Z) == ((x >> b) & 1 == 0)
            &&& bt.st.f & FLAG_C == m.st.f & FLAG_C
            &&& forall|j: u8| j < 8 ==> #[trigger] ((v >> j) & 1) == (if j == b { if set { 1u8 } else { 0u8 } } else { (x >> j) & 1 })
            &&& sub_opcode & 7 != 6 ==> reg(rs.st, sub_opcode & 7) == v
            &&& rs.st.f == m.st.f
        }),
{
    let b = (sub_opcode >> 3u8) & 7;
    let x = rv[0];
    let m1 = at_disp(m, prefix, d);
    lemma_bit_flag_parts(m.st.f, x, b, hi(m1.st.wz));
    let mask = 1u8 << b;
    let nv = if set { x | mask } else { x & !mask };
    assert forall|j: u8| j < 8 implies #[trigger] ((nv >> j) & 1) == (if j == b { if set { 1u8 } else { 0u8 } } else { (x >> j) & 1 }) by {
        lemma_mask_bits(x, b, j);
    }
    let m2 = logged(logged(m1, rd(m1.st.wz, x)), wr(m1.st.wz, nv));
    let dest = sub_opcode & 7;
    if dest != 6 {
        assert(reg(set_reg(m2.st, dest, nv), dest) == nv);
        assert(set_reg(m2.st, dest, nv).f == m2.st.f);
    }
}

/// A rotate or shift on (IX+d) (DD CB d op): the byte written back, and
/// copied into r in the forms that name one, is the rotate of the byte read
/// with the carry flag held before the instruction, and C takes the bit
/// shifted out.
pub proof fn lemma_index_rot(m: Machine, prefix: u8, d: u8, sub_opcode: u8, rv: Seq<u8>)
    ensures
        ({
            let r = rot_spec((sub_opcode >> 3u8) & 7, rv[0], m.st.f & 1);
            let out = sem_index_rot(m, prefix, d, sub_opcode, rv).0;
            &&& out.ops.last().value == r.0
            &&& sub_opcode & 7 != 6 ==> reg(out.st, sub_opcode & 7) == r.0
            &&& out.st.f & FLAG_C == r.1
        }),
{
    let x = rv[0];
    let c = m.st.f & 1;
    let g = (sub_opcode >> 3u8) & 7;
    lemma_rot_values(x, c);
    let r = rot_spec(g, x, c);
    assert(r.1 <= 1);
    lemma_rot_flags(r.0, r.1);
    let dest = sub_opcode & 7;
    let m1 = at_disp(m, prefix, d);
    let m2 = with_f(logged(logged(m1, rd(m1.st.wz, x)), wr(m1.st.wz, r.0)), rot_flags(r.0, r.1));
    if dest != 6 {
        assert(reg(set_reg(m2.st, dest, r.0), dest) == r.0);
        assert(set_reg(m2.st, dest, r.0).f == m2.st.f);
    }
}

pub(crate) proof fn lemma_keep_flags_carry(f: u8, hr: u8, h: u8, c: u8)
    by (bit_vector)
    requires
        h == 0 || h == FLAG_H,
        c == 0 || c == FLAG_C,
    ensures
        ((f & (FLAG_S | FLAG_Z | FLAG_PV)) | (hr & (FLAG_X | FLAG_Y)) | h | c) & FLAG_C == c,
{
}

/// The 16-bit IX/IY instructions. INC and DEC IX move it by one modulo
/// 65536. ADD IX,rr adds BC, DE, IX itself or SP (by bits 4-5 of the opcode)
/// modulo 65536, sets C exactly on a carry out of bit 15, and leaves WZ at the
/// old IX + 1. LD IX,nn and LD IX,(nn) take the low byte first -- the (nn)
/// form reads it at nn and the high byte at nn + 1 -- and WZ ends at nn + 1.
/// None of them touches the other index register.
pub proof fn lemma_index_words(m: Machine, prefix: u8, sub_opcode: u8, rv: Seq<u8>)
    ensures
        ({
            let x = idx(m.st, prefix) as int;
            let other = if prefix == 0xDD { m.st.iy } else { m.st.ix };
            let inc = sem_inc_dec_index(m, prefix, false).0;
            let dec = sem_inc_dec_index(m, prefix, true).0;
            let pi = (sub_opcode >> 4u8) & 3;
            let y = if pi == 0 { bc(m.st) as int } else if pi == 1 { de(m.st) as int } else if pi == 2 { x } else { m.st.sp as int };
            let ad = sem_add_index_rr(m, prefix, sub_opcode).0;
            let ln = sem_ld_index_nn(m, prefix, rv).0;
            let lm = sem_ld_index_nn_mem(m, prefix, rv).0;
            let nn = rv[1] as int * 256 + rv[0] as int;
            let k = lm.ops.len();
            &&& idx(inc.st, prefix) as int == (x + 1) % 65536
            &&& idx(dec.st, prefix) as int == (x - 1) % 65536
            &&& idx(ad.st, prefix) as int == (x + y) % 65536
            &&& (ad.st.f & FLAG_C == FLAG_C) == (x + y > 0xFFFF)
            &&& ad.st.wz as int == (x + 1) % 65536
            &&& idx(ln.st, prefix) as int == nn
            &&& idx(lm.st, prefix) as int == rv[3] as int * 256 + rv[2] as int
            &&& lm.ops[k - 2] == rd(lm.ops[k - 2].addr, rv[2]) && lm.ops[k - 2].addr as int == nn
            &&& lm.ops[k - 1] == rd(lm.ops[k - 1].addr, rv[3]) && lm.ops[k - 1].addr as int == (nn + 1) % 65536
            &&& lm.st.wz as int == (nn + 1) % 65536
            &&& (if prefix == 0xDD { inc.st.iy } else { inc.st.ix }) == other
            &&& (if prefix == 0xDD { ad.st.iy } else { ad.st.ix }) == other
            &&& (if prefix == 0xDD { lm.st.iy } else { lm.st.ix }) == other
        }),
{
    let xx = idx(m.st, prefix);
    lemma_halves_arith(rv[0] as u16, rv[1]);
    lemma_halves_arith(rv[2] as u16, rv[3]);
    assert((rv[0] as u16) % 256 == rv[0] as u16);
    assert((rv[2] as u16) % 256 == rv[2] as u16);
    let pi = (sub_opcode >> 4u8) & 3;
    let yy = if pi == 2 { xx } else { pair(m.st, pi) };
    let r = add16_res(xx, yy, 0);
    let h = flag_if((xx % 4096) + (yy % 4096) > 4095, FLAG_H);
    let c = flag_if(xx + yy > 0xFFFF, FLAG_C);
    lemma_keep_flags_carry(m.st.f, hi(r), h, c);
    assert(add16_keep_flags(xx, yy, m.st.f) == (m.st.f & (FLAG_S | FLAG_Z | FLAG_PV)) | (hi(r) & (FLAG_X | FLAG_Y)) | h | c);
}

/// POP IX after PUSH IX gives IX back: the bytes PUSH wrote, read back by POP
/// from the addresses PUSH wrote them to, restore IX (or IY) and SP.
pub proof fn lemma_push_then_pop_index(m: Machine, prefix: u8)
    ensures
        ({
            let m1 = sem_push_index(m, prefix).0;
            let w = m1.ops;
            let n = w.len();
            let m2 = sem_pop_index(m1, prefix, seq![w[n - 1].value, w[n - 2].value]).0;
            let r = m2.ops;
            let k = r.len();
            &&& idx(m2.st, prefix) == idx(m.st, prefix)
            &&& m2.st.sp == m.st.sp
            &&& r[k - 2].addr == w[n - 1].addr
            &&& r[k - 1].addr == w[n - 2].addr
        }),
{
    let v = idx(m.st, prefix);
    crate::processor::lemma_word(hi(v), lo(v), v);
}

impl<B: Bus> Z80<B> {
    pub fn get_index(&self, prefix: u8) -> (r: u16)
        ensures
            r == idx(self.state(), prefix),
    {
        if prefix == 0xDD {
            self.ix
        } else {
            self.iy
        }
    }

    pub fn set_index(&mut self, prefix: u8, value: u16)
        ensures
            host_kept(old(self).bus, final(self).bus),
            final(self).m() == with_st(old(self).m(), set_idx(old(self).state(), prefix, value)),
            final(self).replies@ == old(self).replies@,
    {
        if prefix == 0xDD {
            self.ix = value;
        } else {
            self.iy = value;
        }
    }

    pub fn index_high_byte(&self, prefix: u8) -> (r: u8)
        ensures
            r == idx_byte(self.state(), prefix, true),
    {
        (self.get_index(prefix) >> 8u16) as u8
    }

    pub fn index_low_byte(&self, prefix: u8) -> (r: u8)
        ensures
            r == idx_byte(self.state(), prefix, false),
    {
        self.get_index(prefix) as u8
    }

    pub fn set_index_high_byte(&mut self, prefix: u8, value: u8)
        ensures
            host_kept(old(self).bus, final(self).bus),
            final(self).m() == with_st(old(self).m(), set_idx_byte(old(self).state(), prefix, true, value)),
            final(self).replies@ == old(self).replies@,
    {
        let low = self.index_low_byte(prefix);
        self.set_index(prefix, ((value as u16) << 8u16) | (low as u16));
    }

    pub fn set_index_low_byte(&mut self, prefix: u8, value: u8)
        ensures
            host_kept(old(self).bus, final(self).bus),
            final(self).m() == with_st(old(self).m(), set_idx_byte(old(self).state(), prefix, false, value)),
            final(self).replies@ == old(self).replies@,
    {
        let high = self.index_high_byte(prefix);
        self.set_index(prefix, ((high as u16) << 8u16) | (value as u16));
    }

    fn set_index_byte(&mut self, prefix: u8, high: bool, value: u8)
        ensures
            host_kept(old(self).bus, final(self).bus),
            final(self).m() == with_st(old(self).m(), set_idx_byte(old(self).state(), prefix, high, value)),
            final(self).replies@ == old(self).replies@,
    {
        if high {
            self.set_index_high_byte(prefix, value);
        } else {
            self.set_index_low_byte(prefix, value);
        }
    }

    /// ADD IX/IY,rr -- rr = BC, DE, the index register itself, or SP.
    pub fn op_add_index_rr(&mut self, prefix: u8, sub_opcode: u8) -> (t: u32)
        ensures
            host_kept(old(self).bus, final(self).bus),
            stepped(*old(self), *final(self), t, sem_add_index_rr(old(self).m(), prefix, sub_opcode)),
    {
        let pair_index = (sub_opcode >> 4u8) & 0x03;
        let index = self.get_index(prefix);
        let value = if pair_index == 2 {
            index
        } else {
            self.read_pair(pair_index)
        };
        self.wz = index.wrapping_add(1);
        let r = add16_keep(index, value, self.f.byte());
        self.f = crate::flags::Flags::new(r.1);
        self.set_index(prefix, r.0);
        self.update_q(true);
        15
    }

    /// LD IX/IY,nn
    pub fn op_ld_index_nn(&mut self, prefix: u8) -> (t: u32)
        ensures
            host_kept(old(self).bus, final(self).bus),
            stepped(*old(self), *final(self), t, sem_ld_index_nn(old(self).m(), prefix, new_replies(*old(self), *final(self)))),
    {
        let value = self.read_operand_word();
        proof {
            crate::processor::lemma_word(hi(value), lo(value), value);
        }
        self.set_index(prefix, value);
        self.update_q(false);
        14
    }

    /// LD (nn),IX/IY
    pub fn op_ld_nn_index(&mut self, prefix: u8) -> (t: u32)
        ensures
            host_kept(old(self).bus, final(self).bus),
            stepped(*old(self), *final(self), t, crate::loads::sem_ld_nn_rr(old(self).m(), idx(old(self).state(), prefix), 20, new_replies(*old(self), *final(self)))),
    {
        let addr = self.read_operand_word();
        let index = self.get_index(prefix);
        self.mem_write(addr, index as u8);
        self.wz = addr.wrapping_add(1);
        let a1 = self.wz;
        self.mem_write(a1, (index >> 8u16) as u8);
        proof {
            crate::processor::lemma_word(hi(addr), lo(addr), addr);
            assert(new_replies(*old(self), *self) =~= seq![lo(addr), hi(addr)]);
        }
        self.update_q(false);
        20
    }

    /// LD IX/IY,(nn)
    pub fn op_ld_index_nn_from_mem(&mut self, prefix: u8) -> (t: u32)
        ensures
            host_kept(old(self).bus, final(self).bus),
            stepped(*old(self), *final(self), t, sem_ld_index_nn_mem(old(self).m(), prefix, new_replies(*old(self), *final(self)))),
    {
        let addr = self.read_operand_word();
        let low = self.mem_read(addr);
        self.wz = addr.wrapping_add(1);
        let a1 = self.wz;
        let high = self.mem_read(a1);
        proof {
            crate::processor::lemma_word(hi(addr), lo(addr), addr);
            assert(new_replies(*old(self), *self) =~= seq![lo(addr), hi(addr), low, high]);
        }
        self.set_index(prefix, ((high as u16) << 8u16) | (low as u16));
        self.update_q(false);
        20
    }

    /// LD A,IXH/IYH
    pub fn op_ld_a_index_h(&mut self, prefix: u8) -> (t: u32)
        ensures
            host_kept(old(self).bus, final(self).bus),
            stepped(*old(self), *final(self), t, sem_ld_a_index_byte(old(self).m(), prefix, true)),
    {
        self.a = self.index_high_byte(prefix);
        self.update_q(false);
        4
    }

    /// LD A,IXL/IYL
    pub fn op_ld_a_index_l(&mut self, prefix: u8) -> (t: u32)
        ensures
            host_kept(old(self).bus, final(self).bus),
            stepped(*old(self), *final(self), t, sem_ld_a_index_byte(old(self).m(), prefix, false)),
    {
        self.a = self.index_low_byte(prefix);
        self.update_q(false);
        4
    }

    /// LD r,IXH/IXL/IYH/IYL
    pub fn op_ld_r_index_byte(&mut self, prefix: u8, sub_opcode: u8) -> (t: u32)
        requires
            (sub_opcode >> 3u8) & 7 != 6,
        ensures
            host_kept(old(self).bus, final(self).bus),
            stepped(*old(self), *final(self), t, sem_ld_r_index_byte(old(self).m(), prefix, sub_opcode)),
    {
        let value = if (sub_opcode & 0x07) == 4 {
            self.index_high_byte(prefix)
        } else {
            self.index_low_byte(prefix)
        };
        self.write_reg((sub_opcode >> 3u8) & 0x07, value);
        self.update_q(false);
        4
    }

    /// LD IXH/IXL,IXH/IXL (and the IY forms)
    pub fn op_ld_index_byte_index_byte(&mut self, prefix: u8, sub_opcode: u8) -> (t: u32)
        ensures
            host_kept(old(self).bus, final(self).bus),
            stepped(*old(self), *final(self), t, sem_ld_index_byte_index_byte(old(self).m(), prefix, sub_opcode)),
    {
        let value = if (sub_opcode & 0x07) == 4 {
            self.index_high_byte(prefix)
        } else {
            self.index_low_byte(prefix)
        };
        self.set_index_byte(prefix, ((sub_opcode >> 3u8) & 0x07) == 4, value);
        self.update_q(false);
        4
    }

    /// LD IXH/IXL/IYH/IYL,r
    pub fn op_ld_index_byte_r(&mut self, prefix: u8, sub_opcode: u8) -> (t: u32)
        requires
            sub_opcode & 7 != 6,
        ensures
            host_kept(old(self).bus, final(self).bus),
            stepped(*old(self), *final(self), t, sem_ld_index_byte_r(old(self).m(), prefix, sub_opcode)),
    {
        let value = self.read_reg(sub_opcode & 0x07);
        self.set_index_byte(prefix, ((sub_opcode >> 3u8) & 0x07) == 4, value);
        self.update_q(false);
        4
    }

    /// LD IXH/IXL/IYH/IYL,n
    pub fn op_ld_index_byte_n(&mut self, prefix: u8, sub_opcode: u8) -> (t: u32)
        ensures
            host_kept(old(self).bus, final(self).bus),
            stepped(*old(self), *final(self), t, sem_ld_index_byte_n(old(self).m(), prefix, sub_opcode, new_replies(*old(self), *final(self)))),
    {
        let value = self.read_operand_byte();
        self.set_index_byte(prefix, ((sub_opcode >> 3u8) & 0x07) == 4, value);
        self.update_q(false);
        7
    }

    /// INC/DEC IXH/IXL/IYH/IYL
    pub fn op_inc_dec_index_byte(&mut self, prefix: u8, sub_opcode: u8) -> (t: u32)
        ensures
            host_kept(old(self).bus, final(self).bus),
            stepped(*old(self), *final(self), t, sem_inc_dec_index_byte(old(self).m(), prefix, sub_opcode)),
    {
        let is_high_byte = ((sub_opcode >> 3u8) & 0x07) == 4;
        let value = if is_high_byte {
            self.index_high_byte(prefix)
        } else {
            self.index_low_byte(prefix)
        };
        let r = if (sub_opcode & 0x07) == 4 {
            inc8(value, self.f.byte())
        } else {
            dec8(value, self.f.byte())
        };
        self.f = crate::flags::Flags::new(r.1);
        self.set_index_byte(prefix, is_high_byte, r.0);
        self.update_q(true);
        4
    }

    fn alu_index_byte(&mut self, prefix: u8, group: u8, high: bool) -> (t: u32)
        ensures
            host_kept(old(self).bus, final(self).bus),
            stepped(*old(self), *final(self), t, sem_alu_index_byte(old(self).m(), prefix, group, high)),
    {
        let v = if high {
            self.index_high_byte(prefix)
        } else {
            self.index_low_byte(prefix)
        };
        self.alu_a(group, v);
        self.update_q(true);
        4
    }

    /// ADD A,IXH/IYH
    pub fn op_add_a_index_h(&mut self, prefix: u8) -> (t: u32)
        ensures
            host_kept(old(self).bus, final(self).bus),
            stepped(*old(self), *final(self), t, sem_alu_index_byte(old(self).m(), prefix, 0, true)),
    {
        self.alu_index_byte(prefix, 0, true)
    }

    /// ADD A,IXL/IYL
    pub fn op_add_a_index_l(&mut self, prefix: u8) -> (t: u32)
        ensures
            host_kept(old(self).bus, final(self).bus),
            stepped(*old(self), *final(self), t, sem_alu_index_byte(old(self).m(), prefix, 0, false)),
    {
        self.alu_index_byte(prefix, 0, false)
    }

    /// ADC A,IXH/IYH
    pub fn op_adc_a_index_h(&mut self, prefix: u8) -> (t: u32)
        ensures
            host_kept(old(self).bus, final(self).bus),
            stepped(*old(self), *final(self), t, sem_alu_index_byte(old(self).m(), prefix, 1, true)),
    {
        self.alu_index_byte(prefix, 1, true)
    }

    /// ADC A,IXL/IYL
    pub fn op_adc_a_index_l(&mut self, prefix: u8) -> (t: u32)
        ensures
            host_kept(old(self).bus, final(self).bus),
            stepped(*old(self), *final(self), t, sem_alu_index_byte(old(self).m(), prefix, 1, false)),
    {
        self.alu_index_byte(prefix, 1, false)
    }

    /// SUB A,IXH/IYH
    pub fn op_sub_a_index_h(&mut self, prefix: u8) -> (t: u32)
        ensures
            host_kept(old(self).bus, final(self).bus),
            stepped(*old(self), *final(self), t, sem_alu_index_byte(old(self).m(), prefix, 2, true)),
    {
        self.alu_index_byte(prefix, 2, true)
    }

    /// SUB A,IXL/IYL
    pub fn op_sub_a_index_l(&mut self, prefix: u8) -> (t: u32)
        ensures
            host_kept(old(self).bus, final(self).bus),
            stepped(*old(self), *final(self), t, sem_alu_index_byte(old(self).m(), prefix, 2, false)),
    {
        self.alu_index_byte(prefix, 2, false)
    }

    /// SBC A,IXH/IYH
    pub fn op_sbc_a_index_h(&mut self, prefix: u8) -> (t: u32)
        ensures
            host_kept(old(self).bus, final(self).bus),
            stepped(*old(self), *final(self), t, sem_alu_index_byte(old(self).m(), prefix, 3, true)),
    {
        self.alu_index_byte(prefix, 3, true)
    }

    /// SBC A,IXL/IYL
    pub fn op_sbc_a_index_l(&mut self, prefix: u8) -> (t: u32)
        ensures
            host_kept(old(self).bus, final(self).bus),
            stepped(*old(self), *final(self), t, sem_alu_index_byte(old(self).m(), prefix, 3, false)),
    {
        self.alu_index_byte(prefix, 3, false)
    }

    /// AND A,IXH/IYH
    pub fn op_and_a_index_h(&mut self, prefix: u8) -> (t: u32)
        ensures
            host_kept(old(self).bus, final(self).bus),
            stepped(*old(self), *final(self), t, sem_alu_index_byte(old(self).m(), prefix, 4, true)),
    {
        self.alu_index_byte(prefix, 4, true)
    }

    /// AND A,IXL/IYL
    pub fn op_and_a_index_l(&mut self, prefix: u8) -> (t: u32)
        ensures
            host_kept(old(self).bus, final(self).bus),
            stepped(*old(self), *final(self), t, sem_alu_index_byte(old(self).m(), prefix, 4, false)),
    {
        self.alu_index_byte(prefix, 4, false)
    }

    /// XOR A,IXH/IYH
    pub fn op_xor_a_index_h(&mut self, prefix: u8) -> (t: u32)
        ensures
            host_kept(old(self).bus, final(self).bus),
            stepped(*old(self), *final(self), t, sem_alu_index_byte(old(self).m(), prefix, 5, true)),
    {
        self.alu_index_byte(prefix, 5, true)
    }

    /// XOR A,IXL/IYL
    pub fn op_xor_a_index_l(&mut self, prefix: u8) -> (t: u32)
        ensures
            host_kept(old(self).bus, final(self).bus),
            stepped(*old(self), *final(self), t, sem_alu_index_byte(old(self).m(), prefix, 5, false)),
    {
        self.alu_index_byte(prefix, 5, false)
    }

    /// OR A,IXH/IYH
    pub fn op_or_a_index_h(&mut self, prefix: u8) -> (t: u32)
        ensures
            host_kept(old(self).bus, final(self).bus),
            stepped(*old(self), *final(self), t, sem_alu_index_byte(old(self).m(), prefix, 6, true)),
    {
        self.alu_index_byte(prefix, 6, true)
    }

    /// OR A,IXL/IYL
    pub fn op_or_a_index_l(&mut self, prefix: u8) -> (t: u32)
        ensures
            host_kept(old(self).bus, final(self).bus),
            stepped(*old(self), *final(self), t, sem_alu_index_byte(old(self).m(), prefix, 6, false)),
    {
        self.alu_index_byte(prefix, 6, false)
    }

    /// CP A,IXH/IYH
    pub fn op_cp_a_index_h(&mut self, prefix: u8) -> (t: u32)
        ensures
            host_kept(old(self).bus, final(self).bus),
            stepped(*old(self), *final(self), t, sem_alu_index_byte(old(self).m(), prefix, 7, true)),
    {
        self.alu_index_byte(prefix, 7, true)
    }

    /// CP A,IXL/IYL
    pub fn op_cp_a_index_l(&mut self, prefix: u8) -> (t: u32)
        ensures
            host_kept(old(self).bus, final(self).bus),
            stepped(*old(self), *final(self), t, sem_alu_index_byte(old(self).m(), prefix, 7, false)),
    {
        self.alu_index_byte(prefix, 7, false)
    }

    /// INC IX/IY -- no flags.
    pub fn op_inc_index(&mut self, prefix: u8) -> (t: u32)
        ensures
            host_kept(old(self).bus, final(self).bus),
            stepped(*old(self), *final(self), t, sem_inc_dec_index(old(self).m(), prefix, false)),
    {
        let v = self.get_index(prefix).wrapping_add(1);
        self.set_index(prefix, v);
        self.update_q(false);
        10
    }

    /// DEC IX/IY -- no flags.
    pub fn op_dec_index(&mut self, prefix: u8) -> (t: u32)
        ensures
            host_kept(old(self).bus, final(self).bus),
            stepped(*old(self), *final(self), t, sem_inc_dec_index(old(self).m(), prefix, true)),
    {
        let v = self.get_index(prefix).wrapping_sub(1);
        self.set_index(prefix, v);
        self.update_q(false);
        10
    }

    /// POP IX/IY
    pub fn op_pop_index(&mut self, prefix: u8) -> (t: u32)
        ensures
            host_kept(old(self).bus, final(self).bus),
            stepped(*old(self), *final(self), t, sem_pop_index(old(self).m(), prefix, new_replies(*old(self), *final(self)))),
    {
        let value = self.pop_word();
        proof {
            crate::processor::lemma_word(hi(value), lo(value), value);
        }
        self.set_index(prefix, value);
        self.update_q(false);
        14
    }

    /// PUSH IX/IY
    pub fn op_push_index(&mut self, prefix: u8) -> (t: u32)
        ensures
            host_kept(old(self).bus, final(self).bus),
            stepped(*old(self), *final(self), t, sem_push_index(old(self).m(), prefix)),
    {
        let v = self.get_index(prefix);
        self.push_word(v);
        self.update_q(false);
        15
    }

    /// EX (SP),IX/IY
    pub fn op_ex_sp_index(&mut self, prefix: u8) -> (t: u32)
        ensures
            host_kept(old(self).bus, final(self).bus),
            stepped(*old(self), *final(self), t, sem_ex_sp_index(old(self).m(), prefix, new_replies(*old(self), *final(self)))),
    {
        let sp = self.sp;
        let sp1 = sp.wrapping_add(1);
        let low = self.mem_read(sp);
        let high = self.mem_read(sp1);
        let index = self.get_index(prefix);
        self.mem_write(sp, index as u8);
        self.mem_write(sp1, (index >> 8u16) as u8);
        let value = ((high as u16) << 8u16) | (low as u16);
        self.set_index(prefix, value);
        self.wz = value;
        assert(self.m().ops =~= old(self).m().ops + seq![rd(sp, low), rd(sp1, high), wr(sp, lo(index)), wr(sp1, hi(index))]);
        assert(new_replies(*old(self), *self) =~= seq![low, high]);
        self.update_q(false);
        23
    }

    /// JP (IX)/(IY)
    pub fn op_jp_index(&mut self, prefix: u8) -> (t: u32)
        ensures
            host_kept(old(self).bus, final(self).bus),
            stepped(*old(self), *final(self), t, sem_jp_index(old(self).m(), prefix)),
    {
        self.pc = self.get_index(prefix);
        self.update_q(false);
        8
    }

    /// LD SP,IX/IY
    pub fn op_ld_sp_index(&mut self, prefix: u8) -> (t: u32)
        ensures
            host_kept(old(self).bus, final(self).bus),
            stepped(*old(self), *final(self), t, sem_ld_sp_index(old(self).m(), prefix)),
    {
        self.sp = self.get_index(prefix);
        self.update_q(false);
        10
    }

    pub fn index_displacement_addr(&mut self, prefix: u8) -> (addr: u16)
        ensures
            host_kept(old(self).bus, final(self).bus),
            ({
                let d = final(self).replies@.last();
                &&& final(self).replies@ == old(self).replies@.push(d)
                &&& final(self).m() == at_disp(operand(old(self).m(), d), prefix, d)
                &&& addr == final(self).wz
            }),
    {
        let displacement = self.read_operand_byte();
        let addr = add_displacement(self.get_index(prefix), displacement);
        self.wz = addr;
        addr
    }

    /// BIT b,(IX+d)/(IY+d)
    pub fn op_index_bit(&mut self, prefix: u8, displacement: u8, sub_opcode: u8) -> (t: u32)
        ensures
            host_kept(old(self).bus, final(self).bus),
            stepped(*old(self), *final(self), t, sem_index_bit(old(self).m(), prefix, displacement, sub_opcode, new_replies(*old(self), *final(self)))),
    {
        self.wz = add_displacement(self.get_index(prefix), displacement);
        let addr = self.wz;
        let value = self.mem_read(addr);
        let bit_index = (sub_opcode >> 3u8) & 0x07;
        self.bit_flags(value, bit_index, (addr >> 8u16) as u8);
        self.update_q(true);
        20
    }

    /// RLC/RRC/RL/RR/SLA/SRA/SLL/SRL (IX+d)/(IY+d) -- undocumented forms also copy into r.
    pub fn op_index_rot(&mut self, prefix: u8, displacement: u8, sub_opcode: u8) -> (t: u32)
        ensures
            host_kept(old(self).bus, final(self).bus),
            stepped(*old(self), *final(self), t, sem_index_rot(old(self).m(), prefix, displacement, sub_opcode, new_replies(*old(self), *final(self)))),
    {
        self.wz = add_displacement(self.get_index(prefix), displacement);
        let addr = self.wz;
        let value = self.mem_read(addr);
        let value = self.rot_apply((sub_opcode >> 3u8) & 0x07, value);
        self.mem_write(addr, value);
        let dest = sub_opcode & 0x07;
        if dest != 6 {
            self.write_reg(dest, value);
        }
        self.update_q(true);
        23
    }

    /// RES/SET b,(IX+d)/(IY+d) -- the undocumented forms also copy the result into r.
    pub fn op_index_res_set(&mut self, prefix: u8, displacement: u8, sub_opcode: u8, set_bit: bool) -> (t: u32)
        ensures
            host_kept(old(self).bus, final(self).bus),
            stepped(*old(self), *final(self), t, sem_index_res_set(old(self).m(), prefix, displacement, sub_opcode, set_bit, new_replies(*old(self), *final(self)))),
    {
        self.wz = add_displacement(self.get_index(prefix), displacement);
        let addr = self.wz;
        let mask = 1u8 << ((sub_opcode >> 3u8) & 0x07);
        let value = self.mem_read(addr);
        let value = if set_bit {
            value | mask
        } else {
            value & !mask
        };
        self.mem_write(addr, value);
        let dest = sub_opcode & 0x07;
        if dest != 6 {
            self.write_reg(dest, value);
        }
        self.update_q(false);
        23
    }

    fn inc_dec_index_mem(&mut self, prefix: u8, dec: bool) -> (t: u32)
        ensures
            host_kept(old(self).bus, final(self).bus),
            stepped(*old(self), *final(self), t, sem_inc_dec_index_mem(old(self).m(), prefix, dec, new_replies(*old(self), *final(self)))),
    {
        let addr = self.index_displacement_addr(prefix);
        let value = self.mem_read(addr);
        let r = if dec {
            dec8(value, self.f.byte())
        } else {
            inc8(value, self.f.byte())
        };
        self.f = crate::flags::Flags::new(r.1);
        self.mem_write(addr, r.0);
        self.update_q(true);
        23
    }

    /// INC (IX+d)/(IY+d)
    pub fn op_inc_index_mem(&mut self, prefix: u8) -> (t: u32)
        ensures
            host_kept(old(self).bus, final(self).bus),
            stepped(*old(self), *final(self), t, sem_inc_dec_index_mem(old(self).m(), prefix, false, new_replies(*old(self), *final(self)))),
    {
        self.inc_dec_index_mem(prefix, false)
    }

    /// DEC (IX+d)/(IY+d)
    pub fn op_dec_index_mem(&mut self, prefix: u8) -> (t: u32)
        ensures
            host_kept(old(self).bus, final(self).bus),
            stepped(*old(self), *final(self), t, sem_inc_dec_index_mem(old(self).m(), prefix, true, new_replies(*old(self), *final(self)))),
    {
        self.inc_dec_index_mem(prefix, true)
    }

    /// LD r,(IX+d)/(IY+d)
    pub fn op_ld_r_index_mem(&mut self, prefix: u8, sub_opcode: u8) -> (t: u32)
        requires
            (sub_opcode >> 3u8) & 7 != 6,
        ensures
            host_kept(old(self).bus, final(self).bus),
            stepped(*old(self), *final(self), t, sem_ld_r_index_mem(old(self).m(), prefix, sub_opcode, new_replies(*old(self), *final(self)))),
    {
        let dest = (sub_opcode >> 3u8) & 0x07;
        let addr = self.index_displacement_addr(prefix);
        let value = self.mem_read(addr);
        self.write_reg(dest, value);
        self.update_q(false);
        19
    }

    /// LD (IX+d)/(IY+d),r
    pub fn op_ld_index_mem_r(&mut self, prefix: u8, sub_opcode: u8) -> (t: u32)
        requires
            sub_opcode & 7 != 6,
        ensures
            host_kept(old(self).bus, final(self).bus),
            stepped(*old(self), *final(self), t, sem_ld_index_mem_r(old(self).m(), prefix, sub_opcode, new_replies(*old(self), *final(self)))),
    {
        let src = sub_opcode & 0x07;
        let v = self.read_reg(src);
        let addr = self.index_displacement_addr(prefix);
        self.mem_write(addr, v);
        self.update_q(false);
        19
    }

    /// LD (IX+d)/(IY+d),n
    pub fn op_ld_index_mem_n(&mut self, prefix: u8) -> (t: u32)
        ensures
            host_kept(old(self).bus, final(self).bus),
            stepped(*old(self), *final(self), t, sem_ld_index_mem_n(old(self).m(), prefix, new_replies(*old(self), *final(self)))),
    {
        let addr = self.index_displacement_addr(prefix);
        let value = self.read_operand_byte();
        self.mem_write(addr, value);
        self.update_q(false);
        19
    }

    pub fn indexed_alu(&mut self, prefix: u8, group: u8) -> (t: u32)
        ensures
            host_kept(old(self).bus, final(self).bus),
            stepped(*old(self), *final(self), t, sem_indexed_alu(old(self).m(), prefix, group, new_replies(*old(self), *final(self)))),
    {
        let addr = self.index_displacement_addr(prefix);
        let value = self.mem_read(addr);
        self.alu_a(group, value);
        self.update_q(true);
        19
    }

    /// ADD A,(IX+d)/(IY+d)
    pub fn op_add_a_index_mem(&mut self, prefix: u8) -> (t: u32)
        ensures
            host_kept(old(self).bus, final(self).bus),
            stepped(*old(self), *final(self), t, sem_indexed_alu(old(self).m(), prefix, 0, new_replies(*old(self), *final(self)))),
    {
        self.indexed_alu(prefix, 0)
    }

    /// ADC A,(IX+d)/(IY+d)
    pub fn op_adc_a_index_mem(&mut self, prefix: u8) -> (t: u32)
        ensures
            host_kept(old(self).bus, final(self).bus),
            stepped(*old(self), *final(self), t, sem_indexed_alu(old(self).m(), prefix, 1, new_replies(*old(self), *final(self)))),
    {
        self.indexed_alu(prefix, 1)
    }

    /// SUB A,(IX+d)/(IY+d)
    pub fn op_sub_a_index_mem(&mut self, prefix: u8) -> (t: u32)
        ensures
            host_kept(old(self).bus, final(self).bus),
            stepped(*old(self), *final(self), t, sem_indexed_alu(old(self).m(), prefix, 2, new_replies(*old(self), *final(self)))),
    {
        self.indexed_alu(prefix, 2)
    }

    /// SBC A,(IX+d)/(IY+d)
    pub fn op_sbc_a_index_mem(&mut self, prefix: u8) -> (t: u32)
        ensures
            host_kept(old(self).bus, final(self).bus),
            stepped(*old(self), *final(self), t, sem_indexed_alu(old(self).m(), prefix, 3, new_replies(*old(self), *final(self)))),
    {
        self.indexed_alu(prefix, 3)
    }

    /// AND A,(IX+d)/(IY+d)
    pub fn op_and_a_index_mem(&mut self, prefix: u8) -> (t: u32)
        ensures
            host_kept(old(self).bus, final(self).bus),
            stepped(*old(self), *final(self), t, sem_indexed_alu(old(self).m(), prefix, 4, new_replies(*old(self), *final(self)))),
    {
        self.indexed_alu(prefix, 4)
    }

    /// XOR A,(IX+d)/(IY+d)
    pub fn op_xor_a_index_mem(&mut self, prefix: u8) -> (t: u32)
        ensures
            host_kept(old(self).bus, final(self).bus),
            stepped(*old(self), *final(self), t, sem_indexed_alu(old(self).m(), prefix, 5, new_replies(*old(self), *final(self)))),
    {
        self.indexed_alu(prefix, 5)
    }

    /// OR A,(IX+d)/(IY+d)
    pub fn op_or_a_index_mem(&mut self, prefix: u8) -> (t: u32)
        ensures
            host_kept(old(self).bus, final(self).bus),
            stepped(*old(self), *final(self), t, sem_indexed_alu(old(self).m(), prefix, 6, new_replies(*old(self), *final(self)))),
    {
        self.indexed_alu(prefix, 6)
    }

    /// CP A,(IX+d)/(IY+d)
    pub fn op_cp_a_index_mem(&mut self, prefix: u8) -> (t: u32)
        ensures
            host_kept(old(self).bus, final(self).bus),
            stepped(*old(self), *final(self), t, sem_indexed_alu(old(self).m(), prefix, 7, new_replies(*old(self), *final(self)))),
    {
        self.indexed_alu(prefix, 7)
    }
}

} // verus!
