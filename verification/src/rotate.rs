//! Rotate, shift, and bit-operation implementation.

use vstd::prelude::*;

use crate::alu::with_f;
use crate::flags::{szp, szp_spec, FLAG_C, FLAG_H, FLAG_N, FLAG_PV, FLAG_S, FLAG_X, FLAG_Y, FLAG_Z};
use crate::processor::{
    hi, hl, logged, new_replies, q_clear, q_set, rd, reg, set_reg, stepped, with_st, wr, host_kept, Bus,
    Machine, Z80,
};
use crate::state::CpuState;

verus! {

broadcast use crate::flags::group_masks;

/// The CB rotate/shift `group` (RLC RRC RL RR SLA SRA SLL SRL) of `x` with
/// carry-in `c`: the result and the bit shifted out.
pub open spec fn rot_spec(group: u8, x: u8, c: u8) -> (u8, u8) {
    if group == 0 {
        ((x << 1u8) | (x >> 7u8), x >> 7u8)
    } else if group == 1 {
        ((x >> 1u8) | (x << 7u8), x & 1)
    } else if group == 2 {
        ((x << 1u8) | c, x >> 7u8)
    } else if group == 3 {
        ((x >> 1u8) | (c << 7u8), x & 1)
    } else if group == 4 {
        (x << 1u8, x >> 7u8)
    } else if group == 5 {
        ((x & 0x80) | (x >> 1u8), x & 1)
    } else if group == 6 {
        ((x << 1u8) | 1, x >> 7u8)
    } else {
        (x >> 1u8, x & 1)
    }
}

/// The CB rotates write all eight flags: C is the bit shifted out, N = H = 0,
/// P/V the parity of the result, S, Z, X, Y from the result.
pub open spec fn rot_flags(r: u8, carry: u8) -> u8 {
    szp_spec(r) | carry
}

proof fn lemma_carry_bit(x: u8)
    by (bit_vector)
    ensures
        x >> 7u8 <= 1,
        x & 1 <= 1,
        (x >> 7u8) & FLAG_C == x >> 7u8,
        (x & 1) & FLAG_C == x & 1,
{
}

/// A CB rotate or shift: the result and its flags.
pub fn rot(group: u8, x: u8, c: u8) -> (r: (u8, u8))
    ensures
        r.0 == rot_spec(group, x, c).0,
        r.1 == rot_flags(rot_spec(group, x, c).0, rot_spec(group, x, c).1),
{
    let (z, carry) = if group == 0 {
        ((x << 1u8) | (x >> 7u8), x >> 7u8)
    } else if group == 1 {
        ((x >> 1u8) | (x << 7u8), x & 1)
    } else if group == 2 {
        ((x << 1u8) | c, x >> 7u8)
    } else if group == 3 {
        ((x >> 1u8) | (c << 7u8), x & 1)
    } else if group == 4 {
        (x << 1u8, x >> 7u8)
    } else if group == 5 {
        ((x & 0x80) | (x >> 1u8), x & 1)
    } else if group == 6 {
        ((x << 1u8) | 1, x >> 7u8)
    } else {
        (x >> 1u8, x & 1)
    };
    (z, szp(z) | carry)
}

/// Flags of BIT b: Z and P/V set when the bit is clear, S when bit 7 is
/// tested and set, H = 1, N = 0, C kept, X and Y from `xy_source`.
pub open spec fn bit_flags_spec(f: u8, value: u8, bit_index: u8, xy_source: u8) -> u8 {
    let set = (value >> bit_index) & 1 != 0;
    (f & FLAG_C) | FLAG_H | (if set {
        0
    } else {
        FLAG_Z | FLAG_PV
    }) | (if bit_index == 7 && set {
        FLAG_S
    } else {
        0
    }) | (xy_source & (FLAG_X | FLAG_Y))
}

pub open spec fn sem_rot(m: Machine, sub_opcode: u8, rv: Seq<u8>) -> (Machine, u32) {
    let group = (sub_opcode >> 3u8) & 7;
    let dest = sub_opcode & 7;
    let c = m.st.f & 1;
    if dest == 6 {
        let addr = hl(m.st);
        let r = rot_spec(group, rv[0], c);
        (q_set(with_f(logged(logged(m, rd(addr, rv[0])), wr(addr, r.0)), rot_flags(r.0, r.1))), 15)
    } else {
        let r = rot_spec(group, reg(m.st, dest), c);
        (q_set(with_st(m, CpuState { f: rot_flags(r.0, r.1), ..set_reg(m.st, dest, r.0) })), 8)
    }
}

/// RLCA (0), RRCA (1), RLA (2), RRA (3): the rotate of A without the CB
/// prefix. S, Z, P/V kept; H = N = 0; C the bit shifted out; X, Y from A.
pub open spec fn sem_rot_a(m: Machine, group: u8) -> (Machine, u32) {
    let r = rot_spec(group, m.st.a, m.st.f & 1);
    let f = (m.st.f & (FLAG_S | FLAG_Z | FLAG_PV)) | (r.0 & (FLAG_X | FLAG_Y)) | r.1;
    (q_set(with_st(m, CpuState { a: r.0, f, ..m.st })), 4)
}

pub open spec fn sem_bit(m: Machine, sub_opcode: u8, rv: Seq<u8>) -> (Machine, u32) {
    let b = (sub_opcode >> 3u8) & 7;
    let src = sub_opcode & 7;
    if src == 6 {
        // X/Y sample the internal address bus during the read: WZ's high byte.
        let f = bit_flags_spec(m.st.f, rv[0], b, hi(m.st.wz));
        (q_set(with_f(logged(m, rd(hl(m.st), rv[0])), f)), 12)
    } else {
        let v = reg(m.st, src);
        (q_set(with_f(m, bit_flags_spec(m.st.f, v, b, v))), 8)
    }
}

/// RES b (`set` false) / SET b: clear or set one bit of a register or (HL).
pub open spec fn sem_res_set(m: Machine, sub_opcode: u8, set: bool, rv: Seq<u8>) -> (Machine, u32) {
    let b = (sub_opcode >> 3u8) & 7;
    let dest = sub_opcode & 7;
    let apply = |v: u8|
        if set {
            v | (1u8 << b)
        } else {
            v & !(1u8 << b)
        };
    if dest == 6 {
        let addr = hl(m.st);
        (q_clear(logged(logged(m, rd(addr, rv[0])), wr(addr, apply(rv[0])))), 15)
    } else {
        (q_clear(with_st(m, set_reg(m.st, dest, apply(reg(m.st, dest))))), 8)
    }
}

/// RRD (`left` false) / RLD: rotate the BCD digit chain through A's low
/// digit and the byte at HL; WZ = HL + 1. C kept; H = N = 0; S, Z, X, Y,
/// parity from the new A.
pub open spec fn sem_rrd_rld(m: Machine, left: bool, rv: Seq<u8>) -> (Machine, u32) {
    let addr = hl(m.st);
    let data = rv[0];
    let a = m.st.a;
    let mem = if left {
        (data << 4u8) | (a & 0x0F)
    } else {
        (data >> 4u8) | (a << 4u8)
    };
    let na = if left {
        (a & 0xF0) | (data >> 4u8)
    } else {
        (a & 0xF0) | (data & 0x0F)
    };
    let m1 = logged(logged(m, rd(addr, data)), wr(addr, mem));
    (
        q_set(
            with_st(
                m1,
                CpuState { a: na, f: (m.st.f & FLAG_C) | szp_spec(na), wz: addr.wrapping_add(1), ..m.st },
            ),
        ),
        18,
    )
}

proof fn lemma_rlc_arith(x: u8)
    by (bit_vector)
    ensures
        (x << 1u8) | (x >> 7u8) == ((2 * x) % 256 + x / 128) as u8,
{
}

proof fn lemma_rrc_arith(x: u8)
    by (bit_vector)
    ensures
        (x >> 1u8) | (x << 7u8) == (x / 2 + 128 * (x % 2)) as u8,
{
}

proof fn lemma_rl_arith(x: u8, c: u8)
    by (bit_vector)
    requires
        c <= 1,
    ensures
        (x << 1u8) | c == ((2 * x) % 256 + c) as u8,
{
}

proof fn lemma_rr_arith(x: u8, c: u8)
    by (bit_vector)
    requires
        c <= 1,
    ensures
        (x >> 1u8) | (c << 7u8) == (x / 2 + 128 * c) as u8,
{
}

proof fn lemma_sla_arith(x: u8)
    by (bit_vector)
    ensures
        x << 1u8 == ((2 * x) % 256) as u8,
{
}

proof fn lemma_sra_arith(x: u8)
    by (bit_vector)
    ensures
        (x & 0x80) | (x >> 1u8) == (x / 2 + 128 * (x / 128)) as u8,
{
}

proof fn lemma_sll_arith(x: u8)
    by (bit_vector)
    ensures
        (x << 1u8) | 1 == ((2 * x) % 256 + 1) as u8,
{
}

proof fn lemma_shift_out(x: u8)
    by (bit_vector)
    ensures
        x >> 1u8 == x / 2,
        x >> 7u8 == x / 128,
        x & 1 == x % 2,
{
}

/// What each rotate or shift makes of the byte `x` with carry-in `c`, as
/// numbers. Left moves double `x` modulo 256 and hand out its top bit
/// (`x / 128`); right moves halve it and hand out its low bit (`x % 2`).
/// What enters the freed bit: RLC the old top bit, RRC the old low bit, RL and
/// RR the carry-in, SLA and SRL zero, SRA a copy of the sign bit, SLL one.
pub proof fn lemma_rot_values(x: u8, c: u8)
    requires
        c <= 1,
    ensures
        rot_spec(0, x, c).0 as int == (2 * x as int) % 256 + x as int / 128,
        rot_spec(1, x, c).0 as int == x as int / 2 + 128 * (x as int % 2),
        rot_spec(2, x, c).0 as int == (2 * x as int) % 256 + c as int,
        rot_spec(3, x, c).0 as int == x as int / 2 + 128 * c as int,
        rot_spec(4, x, c).0 as int == (2 * x as int) % 256,
        rot_spec(5, x, c).0 as int == x as int / 2 + 128 * (x as int / 128),
        rot_spec(6, x, c).0 as int == (2 * x as int) % 256 + 1,
        rot_spec(7, x, c).0 as int == x as int / 2,
        forall|g: u8| g == 0 || g == 2 || g == 4 || g == 6 ==> #[trigger] rot_spec(g, x, c).1 as int == x as int / 128,
        forall|g: u8| g == 1 || g == 3 || g == 5 || g >= 7 ==> #[trigger] rot_spec(g, x, c).1 as int == x as int % 2,
        forall|g: u8| g > 7 ==> #[trigger] rot_spec(g, x, c) == rot_spec(7, x, c),
{
    lemma_rlc_arith(x);
    lemma_rrc_arith(x);
    lemma_rl_arith(x, c);
    lemma_rr_arith(x, c);
    lemma_sla_arith(x);
    lemma_sra_arith(x);
    lemma_sll_arith(x);
    lemma_shift_out(x);
}

/// The flags a CB rotate leaves for result `r` and bit shifted out `carry`:
/// C is that bit, Z set exactly when `r` is zero, S the sign of `r`, H and N
/// clear.
pub proof fn lemma_rot_flags(r: u8, carry: u8)
    requires
        carry <= 1,
    ensures
        rot_flags(r, carry) & FLAG_C == carry,
        (rot_flags(r, carry) & FLAG_Z == FLAG_Z) == (r == 0),
        rot_flags(r, carry) & FLAG_S == r & FLAG_S,
        rot_flags(r, carry) & (FLAG_H | FLAG_N) == 0,
{
    let z: u8 = if r == 0 { FLAG_Z } else { 0 };
    let p: u8 = if crate::flags::even_parity(r) { FLAG_PV } else { 0 };
    assert(rot_flags(r, carry) == (r & (FLAG_S | FLAG_X | FLAG_Y)) | z | p | carry);
    assert((z == 0x40 || z == 0) && (p == 4 || p == 0) && carry <= 1 ==> {
        let f = (r & (FLAG_S | FLAG_X | FLAG_Y)) | z | p | carry;
        &&& f & FLAG_C == carry
        &&& (f & FLAG_Z == FLAG_Z) == (z == 0x40)
        &&& f & FLAG_S == r & FLAG_S
        &&& f & (FLAG_H | FLAG_N) == 0
    }) by (bit_vector);
}

/// RR r and RR (HL) (CB 18..1F): the carry flag held before the instruction
/// enters bit 7 and bit 0 of the operand leaves into C, so the result is
/// `x / 2 + 128 * C`; Z is set exactly when that result is zero.
pub proof fn lemma_rr_instruction(m: Machine, sub_opcode: u8, rv: Seq<u8>)
    requires
        (sub_opcode >> 3u8) & 7 == 3,
    ensures
        ({
            let dest = sub_opcode & 7;
            let x = if dest == 6 { rv[0] } else { reg(m.st, dest) };
            let out = sem_rot(m, sub_opcode, rv).0;
            let res = x as int / 2 + 128 * (m.st.f & 1) as int;
            &&& dest != 6 ==> reg(out.st, dest) as int == res
            &&& dest == 6 ==> out.ops == m.ops.push(rd(hl(m.st), x)).push(wr(hl(m.st), res as u8))
            &&& out.st.f & FLAG_C == x % 2
            &&& (out.st.f & FLAG_Z == FLAG_Z) == (res == 0)
        }),
{
    let dest = sub_opcode & 7;
    let x = if dest == 6 { rv[0] } else { reg(m.st, dest) };
    let c = m.st.f & 1;
    lemma_rot_values(x, c);
    let r = rot_spec(3, x, c);
    lemma_rot_flags(r.0, r.1);
    if dest != 6 {
        assert(reg(set_reg(m.st, dest, r.0), dest) == r.0);
        assert(reg(CpuState { f: rot_flags(r.0, r.1), ..set_reg(m.st, dest, r.0) }, dest) == r.0);
    }
}

/// RRA: the carry flag held before the instruction enters bit 7 of A and bit
/// 0 of A leaves into C, so A becomes `A / 2 + 128 * C`; S, Z and P/V stay.
pub proof fn lemma_rra(m: Machine)
    ensures
        ({
            let out = sem_rot_a(m, 3).0;
            &&& out.st.a as int == m.st.a as int / 2 + 128 * (m.st.f & 1) as int
            &&& out.st.f & FLAG_C == m.st.a % 2
            &&& out.st.f & (FLAG_S | FLAG_Z | FLAG_PV) == m.st.f & (FLAG_S | FLAG_Z | FLAG_PV)
        }),
{
    let x = m.st.a;
    let c = m.st.f & 1;
    lemma_rot_values(x, c);
    lemma_rot_a(m, 3);
}

/// RLCA, RRCA, RLA and RRA: A takes the rotate's result and C the bit shifted
/// out; S, Z and P/V stay, H and N are cleared, and nothing but A, F and Q
/// changes.
pub proof fn lemma_rot_a(m: Machine, group: u8)
    requires
        group < 4,
    ensures
        ({
            let out = sem_rot_a(m, group).0;
            let r = rot_spec(group, m.st.a, m.st.f & 1);
            &&& out.st.a == r.0
            &&& out.st.f & FLAG_C == r.1
            &&& out.st.f & (FLAG_S | FLAG_Z | FLAG_PV) == m.st.f & (FLAG_S | FLAG_Z | FLAG_PV)
            &&& out.st.f & (FLAG_H | FLAG_N) == 0
            &&& out.st == CpuState { a: out.st.a, f: out.st.f, q: out.st.f, ..m.st }
            &&& out.ops == m.ops
        }),
{
    let x = m.st.a;
    let c = m.st.f & 1;
    let r = rot_spec(group, x, c);
    lemma_carry_bit(x);
    let f0 = m.st.f;
    let cy = r.1;
    let r0 = r.0;
    assert(cy <= 1 ==> {
        let f = (f0 & (FLAG_S | FLAG_Z | FLAG_PV)) | (r0 & (FLAG_X | FLAG_Y)) | cy;
        &&& f & FLAG_C == cy
        &&& f & (FLAG_S | FLAG_Z | FLAG_PV) == f0 & (FLAG_S | FLAG_Z | FLAG_PV)
        &&& f & (FLAG_H | FLAG_N) == 0
    }) by (bit_vector);
}

/// Or-ing in the mask `1 << b` sets bit b and keeps the rest; and-ing with
/// its complement clears bit b and keeps the rest.
pub proof fn lemma_mask_bits(x: u8, b: u8, j: u8)
    by (bit_vector)
    requires
        b < 8,
        j < 8,
    ensures
        ((x | (1u8 << b)) >> j) & 1 == (if j == b { 1u8 } else { (x >> j) & 1 }),
        ((x & !(1u8 << b)) >> j) & 1 == (if j == b { 0u8 } else { (x >> j) & 1 }),
{
}

/// SET b and RES b on a register or (HL): bit b of the result is 1 (SET) or
/// 0 (RES), every other bit is that of the operand, and the flags stay.
pub proof fn lemma_res_set_bits(m: Machine, sub_opcode: u8, set: bool, rv: Seq<u8>)
    ensures
        ({
            let b = (sub_opcode >> 3u8) & 7;
            let dest = sub_opcode & 7;
            let x = if dest == 6 { rv[0] } else { reg(m.st, dest) };
            let out = sem_res_set(m, sub_opcode, set, rv).0;
            &&& dest != 6 ==> forall|j: u8| j < 8 ==> #[trigger] ((reg(out.st, dest) >> j) & 1) == (if j == b { if set { 1u8 } else { 0u8 } } else { (x >> j) & 1 })
            &&& dest == 6 ==> forall|j: u8| j < 8 ==> #[trigger] ((out.ops.last().value >> j) & 1) == (if j == b { if set { 1u8 } else { 0u8 } } else { (x >> j) & 1 })
            &&& dest == 6 ==> out.ops == m.ops.push(rd(hl(m.st), x)).push(wr(hl(m.st), out.ops.last().value))
            &&& out.st.f == m.st.f
        }),
{
    let b = (sub_opcode >> 3u8) & 7;
    let dest = sub_opcode & 7;
    let x = if dest == 6 { rv[0] } else { reg(m.st, dest) };
    let nv = if set { x | (1u8 << b) } else { x & !(1u8 << b) };
    if dest != 6 {
        assert(reg(set_reg(m.st, dest, nv), dest) == nv);
        assert(set_reg(m.st, dest, nv).f == m.st.f);
    }
    assert forall|j: u8| j < 8 implies #[trigger] ((nv >> j) & 1) == (if j == b { if set { 1u8 } else { 0u8 } } else { (x >> j) & 1 }) by {
        lemma_mask_bits(x, b, j);
    }
}

/// The BIT flags for bit `b` of `v`: Z and P/V set exactly when the bit is
/// 0, S exactly when bit 7 is tested and set, H set, N clear, C kept.
pub proof fn lemma_bit_flag_parts(f: u8, v: u8, b: u8, xy: u8)
    by (bit_vector)
    requires
        b < 8,
    ensures
        (bit_flags_spec(f, v, b, xy) & FLAG_Z == FLAG_Z) == ((v >> b) & 1 == 0),
        (bit_flags_spec(f, v, b, xy) & FLAG_PV == FLAG_PV) == ((v >> b) & 1 == 0),
        (bit_flags_spec(f, v, b, xy) & FLAG_S == FLAG_S) == (b == 7 && v >= 0x80),
        bit_flags_spec(f, v, b, xy) & FLAG_C == f & FLAG_C,
        bit_flags_spec(f, v, b, xy) & FLAG_H == FLAG_H,
        bit_flags_spec(f, v, b, xy) & FLAG_N == 0,
{
}

/// BIT b on a register or (HL): Z and P/V are set exactly when bit b of the
/// operand is 0, S exactly when bit 7 is tested and set; H is set, N cleared,
/// C kept, and no register but F (and Q) changes.
pub proof fn lemma_bit_test(m: Machine, sub_opcode: u8, rv: Seq<u8>)
    ensures
        ({
            let b = (sub_opcode >> 3u8) & 7;
            let src = sub_opcode & 7;
            let x = if src == 6 { rv[0] } else { reg(m.st, src) };
            let out = sem_bit(m, sub_opcode, rv).0;
            &&& (out.st.f & FLAG_Z == FLAG_Z) == ((x >> b) & 1 == 0)
            &&& (out.st.f & FLAG_PV == FLAG_PV) == ((x >> b) & 1 == 0)
            &&& (out.st.f & FLAG_S == FLAG_S) == (b == 7 && x >= 0x80)
            &&& out.st.f & FLAG_C == m.st.f & FLAG_C
            &&& out.st.f & FLAG_H == FLAG_H
            &&& out.st.f & FLAG_N == 0
            &&& out.st == CpuState { f: out.st.f, q: out.st.f, ..m.st }
        }),
{
    let b = (sub_opcode >> 3u8) & 7;
    let src = sub_opcode & 7;
    if src == 6 {
        lemma_bit_flag_parts(m.st.f, rv[0], b, hi(m.st.wz));
    } else {
        let v = reg(m.st, src);
        lemma_bit_flag_parts(m.st.f, v, b, v);
    }
}

/// BIT b after SET b on the same register reports the bit set (Z clear);
/// after RES b it reports it clear (Z set).
pub proof fn lemma_bit_after_res_set(m: Machine, set_opcode: u8, set: bool, bit_opcode: u8, rv: Seq<u8>)
    requires
        set_opcode & 7 == bit_opcode & 7,
        set_opcode & 7 != 6,
        (set_opcode >> 3u8) & 7 == (bit_opcode >> 3u8) & 7,
    ensures
        ({
            let out = sem_bit(sem_res_set(m, set_opcode, set, rv).0, bit_opcode, rv).0;
            (out.st.f & FLAG_Z == FLAG_Z) == !set
        }),
{
    let b = (set_opcode >> 3u8) & 7;
    let m1 = sem_res_set(m, set_opcode, set, rv).0;
    lemma_res_set_bits(m, set_opcode, set, rv);
    lemma_bit_test(m1, bit_opcode, rv);
    let v = reg(m1.st, set_opcode & 7);
    assert(((v >> b) & 1) == (if set { 1u8 } else { 0u8 }));
}

proof fn lemma_digit_arith(d: u8, a: u8)
    by (bit_vector)
    ensures
        (d << 4u8) | (a & 0x0F) == ((d % 16) * 16 + a % 16) as u8,
        (a & 0xF0) | (d >> 4u8) == ((a / 16) * 16 + d / 16) as u8,
{
}

proof fn lemma_digit_arith_right(d: u8, a: u8)
    by (bit_vector)
    ensures
        (d >> 4u8) | (a << 4u8) == ((a % 16) * 16 + d / 16) as u8,
        (a & 0xF0) | (d & 0x0F) == ((a / 16) * 16 + d % 16) as u8,
{
}

/// RLD and RRD move BCD digits between A and the byte `d` at HL. RLD: (HL)
/// becomes `d`'s low digit then A's low digit, A's low digit becomes `d`'s
/// high digit. RRD: (HL) becomes A's low digit then `d`'s high digit, A's
/// low digit becomes `d`'s low digit. A's high digit and C stay; Z is set
/// exactly when the new A is zero; WZ = HL + 1.
pub proof fn lemma_rld_rrd_digits(m: Machine, left: bool, rv: Seq<u8>)
    ensures
        ({
            let d = rv[0] as int;
            let a = m.st.a as int;
            let out = sem_rrd_rld(m, left, rv).0;
            let mem = out.ops.last().value as int;
            &&& left ==> mem == (d % 16) * 16 + a % 16 && out.st.a as int == (a / 16) * 16 + d / 16
            &&& !left ==> mem == (a % 16) * 16 + d / 16 && out.st.a as int == (a / 16) * 16 + d % 16
            &&& out.ops == m.ops.push(rd(hl(m.st), rv[0])).push(wr(hl(m.st), mem as u8))
            &&& out.st.f & FLAG_C == m.st.f & FLAG_C
            &&& (out.st.f & FLAG_Z == FLAG_Z) == (out.st.a == 0)
            &&& out.st.wz as int == (hl(m.st) as int + 1) % 65536
        }),
{
    let d = rv[0];
    let a = m.st.a;
    lemma_digit_arith(d, a);
    lemma_digit_arith_right(d, a);
    let na = if left { (a & 0xF0) | (d >> 4u8) } else { (a & 0xF0) | (d & 0x0F) };
    let f0 = m.st.f;
    let z: u8 = if na == 0 { FLAG_Z } else { 0 };
    let p: u8 = if crate::flags::even_parity(na) { FLAG_PV } else { 0 };
    assert(szp_spec(na) == (na & (FLAG_S | FLAG_X | FLAG_Y)) | z | p);
    assert((z == 0x40 || z == 0) && (p == 4 || p == 0) ==> {
        let f = (f0 & FLAG_C) | ((na & (FLAG_S | FLAG_X | FLAG_Y)) | z | p);
        &&& f & FLAG_C == f0 & FLAG_C
        &&& (f & FLAG_Z == FLAG_Z) == (z == 0x40)
    }) by (bit_vector);
}

/// RRD undoes RLD: run on what RLD left -- the new A, and at HL the byte
/// RLD wrote -- RRD gives back the original A and writes the original byte.
pub proof fn lemma_rrd_undoes_rld(m: Machine, rv: Seq<u8>)
    ensures
        ({
            let m1 = sem_rrd_rld(m, true, rv).0;
            let m2 = sem_rrd_rld(m1, false, seq![m1.ops.last().value]).0;
            &&& m2.st.a == m.st.a
            &&& m2.ops.last() == wr(hl(m.st), rv[0])
        }),
{
    let m1 = sem_rrd_rld(m, true, rv).0;
    let rv2 = seq![m1.ops.last().value];
    lemma_rld_rrd_digits(m, true, rv);
    lemma_rld_rrd_digits(m1, false, rv2);
    assert(hl(m1.st) == hl(m.st));
}

impl<B: Bus> Z80<B> {
    pub fn rot_apply(&mut self, group: u8, value: u8) -> (r: u8)
        ensures
            host_kept(old(self).bus, final(self).bus),
            r == rot_spec(group, value, old(self).f@ & 1).0,
            final(self).m() == with_f(
                old(self).m(),
                rot_flags(rot_spec(group, value, old(self).f@ & 1).0, rot_spec(group, value, old(self).f@ & 1).1),
            ),
            final(self).replies@ == old(self).replies@,
    {
        let r = rot(group, value, self.f.c());
        self.f = crate::flags::Flags::new(r.1);
        r.0
    }

    /// RLC/RRC/RL/RR/SLA/SRA/SLL/SRL r -- CB-prefixed rotates and shifts, including (HL).
    pub fn op_rot(&mut self, sub_opcode: u8) -> (t: u32)
        ensures
            host_kept(old(self).bus, final(self).bus),
            stepped(*old(self), *final(self), t, sem_rot(old(self).m(), sub_opcode, new_replies(*old(self), *final(self)))),
    {
        let group = (sub_opcode >> 3u8) & 0x07;
        let dest = sub_opcode & 0x07;
        if dest == 6 {
            let addr = self.hl();
            let value = self.mem_read(addr);
            let value = self.rot_apply(group, value);
            self.mem_write(addr, value);
            self.update_q(true);
            return 15;
        }
        let v = self.read_reg(dest);
        let value = self.rot_apply(group, v);
        self.write_reg(dest, value);
        self.update_q(true);
        8
    }

    fn rot_a(&mut self, group: u8) -> (t: u32)
        ensures
            host_kept(old(self).bus, final(self).bus),
            stepped(*old(self), *final(self), t, sem_rot_a(old(self).m(), group)),
    {
        let r = rot(group, self.a, self.f.c());
        let carry = r.1 & FLAG_C;
        proof {
            let x = old(self).a;
            let c = old(self).f@ & 1;
            lemma_carry_bit(x);
            assert((szp_spec(rot_spec(group, x, c).0) | rot_spec(group, x, c).1) & FLAG_C
                == rot_spec(group, x, c).1) by {
                let z = rot_spec(group, x, c).0;
                let cy = rot_spec(group, x, c).1;
                assert(cy <= 1 ==> (((z & (FLAG_S | FLAG_X | FLAG_Y)) | (if z == 0 { FLAG_Z } else { 0 }) | (if crate::flags::even_parity(z) { FLAG_PV } else { 0 }) | cy) & FLAG_C) == cy) by (bit_vector);
            }
        }
        self.a = r.0;
        let f = (self.f.byte() & (FLAG_S | FLAG_Z | FLAG_PV)) | (self.a & (FLAG_X | FLAG_Y)) | carry;
        self.f = crate::flags::Flags::new(f);
        self.update_q(true);
        4
    }

    /// RLCA
    pub fn op_rlca(&mut self) -> (t: u32)
        ensures
            host_kept(old(self).bus, final(self).bus),
            stepped(*old(self), *final(self), t, sem_rot_a(old(self).m(), 0)),
    {
        self.rot_a(0)
    }

    /// RRCA
    pub fn op_rrca(&mut self) -> (t: u32)
        ensures
            host_kept(old(self).bus, final(self).bus),
            stepped(*old(self), *final(self), t, sem_rot_a(old(self).m(), 1)),
    {
        self.rot_a(1)
    }

    /// RLA
    pub fn op_rla(&mut self) -> (t: u32)
        ensures
            host_kept(old(self).bus, final(self).bus),
            stepped(*old(self), *final(self), t, sem_rot_a(old(self).m(), 2)),
    {
        self.rot_a(2)
    }

    /// RRA
    pub fn op_rra(&mut self) -> (t: u32)
        ensures
            host_kept(old(self).bus, final(self).bus),
            stepped(*old(self), *final(self), t, sem_rot_a(old(self).m(), 3)),
    {
        self.rot_a(3)
    }

    /// The BIT b flags, shared with BIT b,(IX+d).
    pub fn bit_flags(&mut self, value: u8, bit_index: u8, xy_source: u8)
        requires
            bit_index < 8,
        ensures
            host_kept(old(self).bus, final(self).bus),
            final(self).m() == with_f(old(self).m(), bit_flags_spec(old(self).f@, value, bit_index, xy_source)),
            final(self).replies@ == old(self).replies@,
    {
        let set = (value >> bit_index) & 1 != 0;
        let zp = if set {
            0
        } else {
            FLAG_Z | FLAG_PV
        };
        let s = if bit_index == 7 && set {
            FLAG_S
        } else {
            0
        };
        let f = (self.f.byte() & FLAG_C) | FLAG_H | zp | s | (xy_source & (FLAG_X | FLAG_Y));
        self.f = crate::flags::Flags::new(f);
    }

    /// BIT b,r -- includes BIT b,(HL).
    pub fn op_bit(&mut self, sub_opcode: u8) -> (t: u32)
        ensures
            host_kept(old(self).bus, final(self).bus),
            stepped(*old(self), *final(self), t, sem_bit(old(self).m(), sub_opcode, new_replies(*old(self), *final(self)))),
    {
        let bit_index = (sub_opcode >> 3u8) & 0x07;
        let src = sub_opcode & 0x07;
        let t_states = if src == 6 {
            let addr = self.hl();
            let value = self.mem_read(addr);
            // X/Y sample the internal address bus during the read: WZ's high byte, not
            // the tested byte. Register forms below take them from the value itself.
            let xy = (self.wz >> 8u16) as u8;
            self.bit_flags(value, bit_index, xy);
            12
        } else {
            let value = self.read_reg(src);
            self.bit_flags(value, bit_index, value);
            8
        };
        self.update_q(true);
        t_states
    }

    fn res_set(&mut self, sub_opcode: u8, set: bool) -> (t: u32)
        ensures
            host_kept(old(self).bus, final(self).bus),
            stepped(*old(self), *final(self), t, sem_res_set(old(self).m(), sub_opcode, set, new_replies(*old(self), *final(self)))),
    {
        let bit_index = (sub_opcode >> 3u8) & 0x07;
        let dest = sub_opcode & 0x07;
        let t_states = if dest == 6 {
            let addr = self.hl();
            let value = self.mem_read(addr);
            let nv = if set {
                value | (1u8 << bit_index)
            } else {
                value & !(1u8 << bit_index)
            };
            self.mem_write(addr, nv);
            15
        } else {
            let value = self.read_reg(dest);
            let nv = if set {
                value | (1u8 << bit_index)
            } else {
                value & !(1u8 << bit_index)
            };
            self.write_reg(dest, nv);
            8
        };
        self.update_q(false);
        t_states
    }

    /// RES b,r -- includes RES b,(HL).
    pub fn op_res(&mut self, sub_opcode: u8) -> (t: u32)
        ensures
            host_kept(old(self).bus, final(self).bus),
            stepped(*old(self), *final(self), t, sem_res_set(old(self).m(), sub_opcode, false, new_replies(*old(self), *final(self)))),
    {
        self.res_set(sub_opcode, false)
    }

    /// SET b,r -- includes SET b,(HL).
    pub fn op_set(&mut self, sub_opcode: u8) -> (t: u32)
        ensures
            host_kept(old(self).bus, final(self).bus),
            stepped(*old(self), *final(self), t, sem_res_set(old(self).m(), sub_opcode, true, new_replies(*old(self), *final(self)))),
    {
        self.res_set(sub_opcode, true)
    }

    fn rrd_rld(&mut self, left: bool) -> (t: u32)
        ensures
            host_kept(old(self).bus, final(self).bus),
            stepped(*old(self), *final(self), t, sem_rrd_rld(old(self).m(), left, new_replies(*old(self), *final(self)))),
    {
        let addr = self.hl();
        self.wz = addr.wrapping_add(1);
        let data = self.mem_read(addr);
        let a = self.a;
        let mem = if left {
            (data << 4u8) | (a & 0x0F)
        } else {
            (data >> 4u8) | (a << 4u8)
        };
        self.mem_write(addr, mem);
        self.a = if left {
            (a & 0xF0) | (data >> 4u8)
        } else {
            (a & 0xF0) | (data & 0x0F)
        };
        let f = (self.f.byte() & FLAG_C) | szp(self.a);
        self.f = crate::flags::Flags::new(f);
        self.update_q(true);
        18
    }

    /// RRD -- rotate the BCD digit chain A[3:0] -> (HL)[7:4] -> (HL)[3:0] -> A[3:0] right.
    pub fn op_rrd(&mut self) -> (t: u32)
        ensures
            host_kept(old(self).bus, final(self).bus),
            stepped(*old(self), *final(self), t, sem_rrd_rld(old(self).m(), false, new_replies(*old(self), *final(self)))),
    {
        self.rrd_rld(false)
    }

    /// RLD -- rotate the BCD digit chain A[3:0] -> (HL)[3:0] -> (HL)[7:4] -> A[3:0] left.
    pub fn op_rld(&mut self) -> (t: u32)
        ensures
            host_kept(old(self).bus, final(self).bus),
            stepped(*old(self), *final(self), t, sem_rrd_rld(old(self).m(), true, new_replies(*old(self), *final(self)))),
    {
        self.rrd_rld(true)
    }
}

} // verus!
