//! Jump, call, return, restart, exchange, and CPU-control (NOP/HALT/DI/EI/IM) group.

use vstd::prelude::*;

use crate::alu::signed8;
use crate::processor::{
    bc, de, hi, hl, lo, new_replies, operand, operand2, popped, pushed, q_clear, rd, stepped, with_st,
    word, wr, host_kept, Bus, Machine, Z80,
};
use crate::flags::{FLAG_C, FLAG_PV, FLAG_S, FLAG_Z};
use crate::state::CpuState;

verus! {

broadcast use crate::flags::group_masks;

/// Condition `cond` of JP cc/CALL cc/RET cc on flags `f`: NZ Z NC C PO PE P M.
pub open spec fn cond_spec(f: u8, cond: u8) -> bool {
    if cond == 0 {
        (f >> 6u8) & 1 == 0
    } else if cond == 1 {
        (f >> 6u8) & 1 == 1
    } else if cond == 2 {
        f & 1 == 0
    } else if cond == 3 {
        f & 1 == 1
    } else if cond == 4 {
        (f >> 2u8) & 1 == 0
    } else if cond == 5 {
        (f >> 2u8) & 1 == 1
    } else if cond == 6 {
        (f >> 7u8) & 1 == 0
    } else {
        (f >> 7u8) & 1 == 1
    }
}

/// `base` moved by the two's-complement displacement `d`, modulo 65536.
pub open spec fn rel(base: u16, d: u8) -> u16 {
    ((base + signed8(d)) % 0x10000) as u16
}

/// `base` plus the signed displacement byte `d`, wrapping.
pub fn add_displacement(base: u16, d: u8) -> (r: u16)
    ensures
        r == rel(base, d),
{
    if d < 128 {
        base.wrapping_add(d as u16)
    } else {
        base.wrapping_sub(256 - d as u16)
    }
}

/// Whether JR `opcode` (0x18 JR, 0x20 NZ, 0x28 Z, 0x30 NC, 0x38 C) branches.
pub open spec fn jr_taken(f: u8, opcode: u8) -> bool {
    if opcode == 0x18 {
        true
    } else if opcode == 0x20 {
        cond_spec(f, 0)
    } else if opcode == 0x28 {
        cond_spec(f, 1)
    } else if opcode == 0x30 {
        cond_spec(f, 2)
    } else {
        cond_spec(f, 3)
    }
}

/// Jump to `target` through the address latch: WZ = PC = target.
pub open spec fn jump(m: Machine, target: u16) -> Machine {
    with_st(m, CpuState { wz: target, pc: target, ..m.st })
}

pub open spec fn sem_jr(m: Machine, opcode: u8, rv: Seq<u8>) -> (Machine, u32) {
    let m1 = operand(m, rv[0]);
    if jr_taken(m.st.f, opcode) {
        (q_clear(jump(m1, rel(m1.st.pc, rv[0]))), 12)
    } else {
        (q_clear(m1), 7)
    }
}

/// JP nn / JP cc,nn: the operand is latched into WZ whether or not the jump is taken.
pub open spec fn sem_jp(m: Machine, opcode: u8, rv: Seq<u8>) -> (Machine, u32) {
    let m1 = operand2(m, rv[0], rv[1]);
    let target = word(rv[1], rv[0]);
    let m2 = with_st(m1, CpuState { wz: target, ..m1.st });
    if opcode == 0xC3 || cond_spec(m.st.f, (opcode >> 3u8) & 7) {
        (q_clear(jump(m2, target)), 10)
    } else {
        (q_clear(m2), 10)
    }
}

pub open spec fn sem_jp_hl(m: Machine) -> (Machine, u32) {
    (q_clear(with_st(m, CpuState { pc: hl(m.st), ..m.st })), 4)
}

pub open spec fn sem_ex_de_hl(m: Machine) -> (Machine, u32) {
    (q_clear(with_st(m, CpuState { d: m.st.h, e: m.st.l, h: m.st.d, l: m.st.e, ..m.st })), 4)
}

/// DI (`enabled` false) / EI: both flip-flops; EI opens its one-instruction delay.
pub open spec fn sem_interrupt_enable(m: Machine, enabled: bool) -> (Machine, u32) {
    (
        q_clear(
            with_st(
                m,
                CpuState {
                    iff1: enabled,
                    iff2: enabled,
                    ei_delay: if enabled {
                        1
                    } else {
                        0
                    },
                    ..m.st
                },
            ),
        ),
        4,
    )
}

pub open spec fn sem_call(m: Machine, opcode: u8, rv: Seq<u8>) -> (Machine, u32) {
    let m1 = operand2(m, rv[0], rv[1]);
    let target = word(rv[1], rv[0]);
    let m2 = with_st(m1, CpuState { wz: target, ..m1.st });
    if opcode != 0xCD && !cond_spec(m.st.f, (opcode >> 3u8) & 7) {
        (q_clear(m2), 10)
    } else {
        (q_clear(jump(pushed(m2, m2.st.pc), target)), 17)
    }
}

pub open spec fn sem_ret(m: Machine, rv: Seq<u8>) -> (Machine, u32) {
    (q_clear(jump(popped(m, rv[0], rv[1]), word(rv[1], rv[0]))), 10)
}

pub open spec fn sem_ret_cc(m: Machine, opcode: u8, rv: Seq<u8>) -> (Machine, u32) {
    if !cond_spec(m.st.f, (opcode >> 3u8) & 7) {
        (q_clear(m), 5)
    } else {
        (q_clear(jump(popped(m, rv[0], rv[1]), word(rv[1], rv[0]))), 11)
    }
}

/// RETN / RETI: return and copy IFF2 into IFF1.
pub open spec fn sem_ret_iff(m: Machine, rv: Seq<u8>) -> (Machine, u32) {
    let m1 = jump(popped(m, rv[0], rv[1]), word(rv[1], rv[0]));
    (q_clear(with_st(m1, CpuState { iff1: m.st.iff2, ..m1.st })), 14)
}

pub open spec fn sem_rst(m: Machine, opcode: u8) -> (Machine, u32) {
    (q_clear(jump(pushed(m, m.st.pc), (((opcode >> 3u8) & 7) << 3u8) as u16)), 11)
}

pub open spec fn sem_im(m: Machine, mode: u8) -> (Machine, u32) {
    (q_clear(with_st(m, CpuState { im: mode, ..m.st })), 8)
}

pub open spec fn sem_ed_nop(m: Machine) -> (Machine, u32) {
    (q_clear(m), 8)
}

pub open spec fn sem_nop(m: Machine) -> (Machine, u32) {
    (q_clear(m), 4)
}

pub open spec fn sem_halt(m: Machine) -> (Machine, u32) {
    (q_clear(with_st(m, CpuState { halted: true, ..m.st })), 4)
}

pub open spec fn sem_exx(m: Machine) -> (Machine, u32) {
    let s = m.st;
    (
        q_clear(
            with_st(
                m,
                CpuState {
                    b: hi(s.bc_alt),
                    c: lo(s.bc_alt),
                    d: hi(s.de_alt),
                    e: lo(s.de_alt),
                    h: hi(s.hl_alt),
                    l: lo(s.hl_alt),
                    bc_alt: word(s.b, s.c),
                    de_alt: de(s),
                    hl_alt: hl(s),
                    ..s
                },
            ),
        ),
        4,
    )
}

/// EX (SP),HL: the word at SP (low byte first) and HL trade places; WZ
/// takes the word read.
pub open spec fn sem_ex_sp_hl(m: Machine, rv: Seq<u8>) -> (Machine, u32) {
    let sp = m.st.sp;
    let sp1 = sp.wrapping_add(1);
    let m1 = Machine {
        ops: m.ops + seq![rd(sp, rv[0]), rd(sp1, rv[1]), wr(sp1, m.st.h), wr(sp, m.st.l)],
        ..m
    };
    (q_clear(with_st(m1, CpuState { h: rv[1], l: rv[0], wz: word(rv[1], rv[0]), ..m.st })), 19)
}

pub open spec fn sem_ex_af_af(m: Machine) -> (Machine, u32) {
    let s = m.st;
    (q_clear(with_st(m, CpuState { a: hi(s.af_alt), f: lo(s.af_alt), af_alt: word(s.a, s.f), ..s })), 4)
}

/// DJNZ e: B decremented; branch while it is not zero.
pub open spec fn sem_djnz(m: Machine, rv: Seq<u8>) -> (Machine, u32) {
    let m1 = operand(m, rv[0]);
    let b = m.st.b.wrapping_sub(1);
    let m2 = with_st(m1, CpuState { b, ..m1.st });
    if b != 0 {
        (q_clear(jump(m2, rel(m1.st.pc, rv[0]))), 13)
    } else {
        (q_clear(m2), 8)
    }
}

/// The eight conditions over the flag bits: NZ and Z test Z, NC and C test
/// C, PO and PE test P/V, P and M test S; the first of each pair holds when
/// the flag is clear.
pub proof fn lemma_conditions(f: u8)
    by (bit_vector)
    ensures
        cond_spec(f, 0) == (f & FLAG_Z == 0),
        cond_spec(f, 1) == (f & FLAG_Z != 0),
        cond_spec(f, 2) == (f & FLAG_C == 0),
        cond_spec(f, 3) == (f & FLAG_C != 0),
        cond_spec(f, 4) == (f & FLAG_PV == 0),
        cond_spec(f, 5) == (f & FLAG_PV != 0),
        cond_spec(f, 6) == (f & FLAG_S == 0),
        cond_spec(f, 7) == (f & FLAG_S != 0),
{
}

/// JR e and DJNZ e: the displacement byte is read as a signed number and
/// added to the address after the instruction, modulo 65536. JR always jumps
/// (0x18), on Z clear (0x20), Z set (0x28), C clear (0x30) or C set (0x38).
/// DJNZ counts B down by one modulo 256 and jumps while it is not zero.
/// Without a jump PC moves past the operand.
pub proof fn lemma_relative_jumps(m: Machine, opcode: u8, rv: Seq<u8>)
    requires
        opcode == 0x18 || opcode == 0x20 || opcode == 0x28 || opcode == 0x30 || opcode == 0x38,
    ensures
        ({
            let d = rv[0];
            let next = (m.st.pc as int + 1) % 65536;
            let target = (m.st.pc as int + 1 + d as int - (if d >= 0x80 { 256int } else { 0int })) % 65536;
            let f = m.st.f;
            let taken = opcode == 0x18 || (opcode == 0x20 && f & FLAG_Z == 0) || (opcode == 0x28 && f & FLAG_Z != 0)
                || (opcode == 0x30 && f & FLAG_C == 0) || (opcode == 0x38 && f & FLAG_C != 0);
            let jr = sem_jr(m, opcode, rv).0;
            let dj = sem_djnz(m, rv).0;
            let b = (m.st.b as int - 1) % 256;
            &&& jr.st.pc as int == (if taken { target } else { next })
            &&& dj.st.b as int == b
            &&& dj.st.pc as int == (if b != 0 { target } else { next })
        }),
{
    lemma_conditions(m.st.f);
}

/// RST p jumps to `8 * p` for p the opcode's bits 3-5, that is, to the
/// opcode's bits 3-5 in place (0x00, 0x08, ..., 0x38).
pub proof fn lemma_rst_target(m: Machine, opcode: u8)
    ensures
        sem_rst(m, opcode).0.st.pc as int == 8 * ((opcode as int / 8) % 8),
        sem_rst(m, opcode).0.st.pc as int == (opcode & 0x38) as int,
{
    assert((((opcode >> 3u8) & 7) << 3u8) as int == 8 * ((opcode / 8) % 8)) by (bit_vector);
    assert((((opcode >> 3u8) & 7) << 3u8) == opcode & 0x38) by (bit_vector);
}

/// RET after CALL nn comes back: the bytes CALL pushed, read back by RET from
/// the addresses CALL wrote them to, give PC the address after the CALL and
/// restore SP.
pub proof fn lemma_call_then_ret(m: Machine, rv: Seq<u8>)
    ensures
        ({
            let m1 = sem_call(m, 0xCD, rv).0;
            let back = m.st.pc.wrapping_add(1).wrapping_add(1);
            let w = m1.ops;
            let n = w.len();
            let m2 = sem_ret(m1, seq![w[n - 1].value, w[n - 2].value]).0;
            let r = m2.ops;
            let k = r.len();
            &&& r[k - 2].addr == w[n - 1].addr
            &&& r[k - 1].addr == w[n - 2].addr
            &&& m2.st.pc == back
            &&& m2.st.sp == m.st.sp
            &&& m1.st.pc == word(rv[1], rv[0])
        }),
{
    let back = m.st.pc.wrapping_add(1).wrapping_add(1);
    let h: u8 = hi(back);
    let l: u8 = lo(back);
    crate::processor::lemma_word(h, l, back);
}

/// EXX trades BC, DE and HL with their alternates, and EX AF,AF' trades A
/// and F with AF'; done twice, each gives back the registers it started with.
pub proof fn lemma_exchanges(m: Machine)
    ensures
        ({
            let x1 = sem_exx(m).0;
            let a1 = sem_ex_af_af(m).0;
            &&& bc(x1.st) == m.st.bc_alt && x1.st.bc_alt == bc(m.st)
            &&& de(x1.st) == m.st.de_alt && x1.st.de_alt == de(m.st)
            &&& hl(x1.st) == m.st.hl_alt && x1.st.hl_alt == hl(m.st)
            &&& sem_exx(x1).0.st == (CpuState { q: 0, ..m.st })
            &&& word(a1.st.a, a1.st.f) == m.st.af_alt
            &&& sem_ex_af_af(a1).0.st == (CpuState { q: 0, ..m.st })
        }),
{
    let s = m.st;
    crate::processor::lemma_word(hi(s.bc_alt), lo(s.bc_alt), s.bc_alt);
    crate::processor::lemma_word(hi(s.de_alt), lo(s.de_alt), s.de_alt);
    crate::processor::lemma_word(hi(s.hl_alt), lo(s.hl_alt), s.hl_alt);
    crate::processor::lemma_word(hi(s.af_alt), lo(s.af_alt), s.af_alt);
    crate::processor::lemma_word(s.b, s.c, 0);
    crate::processor::lemma_word(s.d, s.e, 0);
    crate::processor::lemma_word(s.h, s.l, 0);
    crate::processor::lemma_word(s.a, s.f, 0);
}

impl<B: Bus> Z80<B> {
    pub fn cond_true(&self, cond: u8) -> (r: bool)
        ensures
            r == cond_spec(self.f@, cond),
    {
        if cond == 0 {
            return self.f.z() == 0;
        }
        if cond == 1 {
            return self.f.z() == 1;
        }
        if cond == 2 {
            return self.f.c() == 0;
        }
        if cond == 3 {
            return self.f.c() == 1;
        }
        if cond == 4 {
            return self.f.pv() == 0;
        }
        if cond == 5 {
            return self.f.pv() == 1;
        }
        if cond == 6 {
            return self.f.s() == 0;
        }
        self.f.s() == 1
    }

    /// JR cc,e -- relative jump; JR e is the always-taken form. 12 T-states taken, 7 not.
    pub fn op_jr(&mut self, opcode: u8) -> (t: u32)
        ensures
            host_kept(old(self).bus, final(self).bus),
            stepped(*old(self), *final(self), t, sem_jr(old(self).m(), opcode, new_replies(*old(self), *final(self)))),
    {
        let displacement = self.read_operand_byte();
        let taken = if opcode == 0x18 {
            true
        } else if opcode == 0x20 {
            self.cond_true(0)
        } else if opcode == 0x28 {
            self.cond_true(1)
        } else if opcode == 0x30 {
            self.cond_true(2)
        } else {
            self.cond_true(3)
        };
        if !taken {
            self.update_q(false);
            return 7;
        }
        // Unlike JP, the target is only computed (and latched into WZ) when the
        // branch is taken; a not-taken JR leaves WZ untouched.
        self.wz = add_displacement(self.pc, displacement);
        self.pc = self.wz;
        self.update_q(false);
        12
    }

    /// JP cc,nn -- absolute jump; JP nn is the always-taken form. 10 T-states either way.
    pub fn op_jp(&mut self, opcode: u8) -> (t: u32)
        ensures
            host_kept(old(self).bus, final(self).bus),
            stepped(*old(self), *final(self), t, sem_jp(old(self).m(), opcode, new_replies(*old(self), *final(self)))),
    {
        // The operand fetch itself latches nn into WZ, so WZ changes even when the
        // condition fails and the jump is not taken.
        self.wz = self.read_operand_word();
        proof {
            crate::processor::lemma_word(hi(self.wz), lo(self.wz), self.wz);
        }
        if opcode == 0xC3 || self.cond_true((opcode >> 3u8) & 0x07) {
            self.pc = self.wz;
        }
        self.update_q(false);
        10
    }

    /// JP (HL)
    pub fn op_jp_hl(&mut self) -> (t: u32)
        ensures
            host_kept(old(self).bus, final(self).bus),
            stepped(*old(self), *final(self), t, sem_jp_hl(old(self).m())),
    {
        self.pc = self.hl();
        self.update_q(false);
        4
    }

    /// EX DE,HL
    pub fn op_ex_de_hl(&mut self) -> (t: u32)
        ensures
            host_kept(old(self).bus, final(self).bus),
            stepped(*old(self), *final(self), t, sem_ex_de_hl(old(self).m())),
    {
        let (d, e) = (self.d, self.e);
        self.d = self.h;
        self.e = self.l;
        self.h = d;
        self.l = e;
        self.update_q(false);
        4
    }

    /// DI/EI -- update both interrupt-enable flip-flops.
    pub fn op_interrupt_enable(&mut self, enabled: bool) -> (t: u32)
        ensures
            host_kept(old(self).bus, final(self).bus),
            stepped(*old(self), *final(self), t, sem_interrupt_enable(old(self).m(), enabled)),
    {
        self.iff1 = enabled;
        self.iff2 = enabled;
        self.ei_delay = if enabled {
            1
        } else {
            0
        };
        self.update_q(false);
        4
    }

    /// CALL cc,nn -- CALL nn is the always-taken form. 17 T-states taken, 10 not.
    pub fn op_call(&mut self, opcode: u8) -> (t: u32)
        ensures
            host_kept(old(self).bus, final(self).bus),
            stepped(*old(self), *final(self), t, sem_call(old(self).m(), opcode, new_replies(*old(self), *final(self)))),
    {
        self.wz = self.read_operand_word();
        proof {
            crate::processor::lemma_word(hi(self.wz), lo(self.wz), self.wz);
        }
        if opcode != 0xCD && !self.cond_true((opcode >> 3u8) & 0x07) {
            self.update_q(false);
            return 10;
        }
        let pc = self.pc;
        self.push_word(pc);
        self.pc = self.wz;
        self.update_q(false);
        17
    }

    /// RET
    pub fn op_ret(&mut self) -> (t: u32)
        ensures
            host_kept(old(self).bus, final(self).bus),
            stepped(*old(self), *final(self), t, sem_ret(old(self).m(), new_replies(*old(self), *final(self)))),
    {
        self.wz = self.pop_word();
        proof {
            crate::processor::lemma_word(hi(self.wz), lo(self.wz), self.wz);
        }
        self.pc = self.wz;
        self.update_q(false);
        10
    }

    /// RET cc -- 11 T-states taken, 5 not.
    pub fn op_ret_cc(&mut self, opcode: u8) -> (t: u32)
        ensures
            host_kept(old(self).bus, final(self).bus),
            stepped(*old(self), *final(self), t, sem_ret_cc(old(self).m(), opcode, new_replies(*old(self), *final(self)))),
    {
        if !self.cond_true((opcode >> 3u8) & 0x07) {
            self.update_q(false);
            return 5;
        }
        self.wz = self.pop_word();
        proof {
            crate::processor::lemma_word(hi(self.wz), lo(self.wz), self.wz);
        }
        self.pc = self.wz;
        self.update_q(false);
        11
    }

    pub fn ret_iff(&mut self) -> (t: u32)
        ensures
            host_kept(old(self).bus, final(self).bus),
            stepped(*old(self), *final(self), t, sem_ret_iff(old(self).m(), new_replies(*old(self), *final(self)))),
    {
        self.wz = self.pop_word();
        proof {
            crate::processor::lemma_word(hi(self.wz), lo(self.wz), self.wz);
        }
        self.pc = self.wz;
        self.iff1 = self.iff2;
        self.update_q(false);
        14
    }

    /// RETN -- return from NMI; restores IFF1 from IFF2.
    pub fn op_retn(&mut self) -> (t: u32)
        ensures
            host_kept(old(self).bus, final(self).bus),
            stepped(*old(self), *final(self), t, sem_ret_iff(old(self).m(), new_replies(*old(self), *final(self)))),
    {
        self.ret_iff()
    }

    /// RETI -- return from maskable interrupt; restores IFF1 from IFF2 exactly like RETN.
    pub fn op_reti(&mut self) -> (t: u32)
        ensures
            host_kept(old(self).bus, final(self).bus),
            stepped(*old(self), *final(self), t, sem_ret_iff(old(self).m(), new_replies(*old(self), *final(self)))),
    {
        self.ret_iff()
    }

    /// RST p
    pub fn op_rst(&mut self, opcode: u8) -> (t: u32)
        ensures
            host_kept(old(self).bus, final(self).bus),
            stepped(*old(self), *final(self), t, sem_rst(old(self).m(), opcode)),
    {
        let pc = self.pc;
        self.push_word(pc);
        self.wz = (((opcode >> 3u8) & 0x07) << 3u8) as u16;
        self.pc = self.wz;
        self.update_q(false);
        11
    }

    /// IM n -- select Z80 interrupt mode 0, 1, or 2.
    pub fn op_im(&mut self, mode: u8) -> (t: u32)
        ensures
            host_kept(old(self).bus, final(self).bus),
            stepped(*old(self), *final(self), t, sem_im(old(self).m(), mode)),
    {
        self.im = mode;
        self.update_q(false);
        8
    }

    /// NOP (undocumented ED-prefixed form) -- 8 T-states, no state change.
    pub fn op_ed_nop(&mut self) -> (t: u32)
        ensures
            host_kept(old(self).bus, final(self).bus),
            stepped(*old(self), *final(self), t, sem_ed_nop(old(self).m())),
    {
        self.update_q(false);
        8
    }

    /// EXX
    pub fn op_exx(&mut self) -> (t: u32)
        ensures
            host_kept(old(self).bus, final(self).bus),
            stepped(*old(self), *final(self), t, sem_exx(old(self).m())),
    {
        let (bc, de, hl) = (self.bc(), self.de(), self.hl());
        let (bc_, de_, hl_) = (self.bc_, self.de_, self.hl_);
        self.write_pair(0, bc_);
        self.write_pair(1, de_);
        self.write_pair(2, hl_);
        self.bc_ = bc;
        self.de_ = de;
        self.hl_ = hl;
        self.update_q(false);
        4
    }

    /// EX (SP),HL
    pub fn op_ex_sp_hl(&mut self) -> (t: u32)
        ensures
            host_kept(old(self).bus, final(self).bus),
            stepped(*old(self), *final(self), t, sem_ex_sp_hl(old(self).m(), new_replies(*old(self), *final(self)))),
    {
        let sp = self.sp;
        let sp1 = sp.wrapping_add(1);
        let low = self.mem_read(sp);
        let high = self.mem_read(sp1);
        let (h, l) = (self.h, self.l);
        self.mem_write(sp1, h);
        self.mem_write(sp, l);
        self.h = high;
        self.l = low;
        self.wz = ((high as u16) << 8u16) | (low as u16);
        assert(self.m().ops =~= old(self).m().ops + seq![rd(sp, low), rd(sp1, high), wr(sp1, h), wr(sp, l)]);
        assert(new_replies(*old(self), *self) =~= seq![low, high]);
        self.update_q(false);
        19
    }

    /// HALT
    pub fn op_halt(&mut self) -> (t: u32)
        ensures
            host_kept(old(self).bus, final(self).bus),
            stepped(*old(self), *final(self), t, sem_halt(old(self).m())),
    {
        self.halted = true;
        self.update_q(false);
        4
    }

    /// NOP
    pub fn op_nop(&mut self) -> (t: u32)
        ensures
            host_kept(old(self).bus, final(self).bus),
            stepped(*old(self), *final(self), t, sem_nop(old(self).m())),
    {
        self.update_q(false);
        4
    }

    /// EX AF,AF'
    pub fn op_ex_af_af(&mut self) -> (t: u32)
        ensures
            host_kept(old(self).bus, final(self).bus),
            stepped(*old(self), *final(self), t, sem_ex_af_af(old(self).m())),
    {
        let af = ((self.a as u16) << 8u16) | (self.f.byte() as u16);
        let alt = self.af_;
        self.a = (alt >> 8u16) as u8;
        self.f.set_byte(alt as u8);
        self.af_ = af;
        self.update_q(false);
        4
    }

    /// DJNZ e -- decrement B and branch if it is not zero; 13 T-states taken, 8 not.
    pub fn op_djnz(&mut self) -> (t: u32)
        ensures
            host_kept(old(self).bus, final(self).bus),
            stepped(*old(self), *final(self), t, sem_djnz(old(self).m(), new_replies(*old(self), *final(self)))),
    {
        let displacement = self.read_operand_byte();
        self.b = self.b.wrapping_sub(1);
        if self.b != 0 {
            self.wz = add_displacement(self.pc, displacement);
            self.pc = self.wz;
            self.update_q(false);
            return 13;
        }
        self.update_q(false);
        8
    }
}

} // verus!
