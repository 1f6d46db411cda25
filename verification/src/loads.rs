//! 8-bit and 16-bit load group, including PUSH/POP.

use vstd::prelude::*;

use crate::alu::with_f;
use crate::flags::{szp, szp_spec, FLAG_C, FLAG_PV};
use crate::processor::{
    hi, hl, lo, logged, new_replies, operand, operand2, pair, popped, pushed, q_clear, q_set, rd,
    reg, set_pair, set_reg, stepped, with_st, word, wr, host_kept, Bus, Machine, Z80,
};
use crate::state::CpuState;

verus! {

broadcast use crate::flags::group_masks;

/// LD r,r' including the (HL) source and destination forms (0x40-0x7F but 0x76).
pub open spec fn sem_ld_r_r(m: Machine, opcode: u8, rv: Seq<u8>) -> (Machine, u32) {
    let dest = (opcode >> 3u8) & 7;
    let src = opcode & 7;
    let addr = hl(m.st);
    if src == 6 && dest == 6 {
        (q_clear(logged(logged(m, rd(addr, rv[0])), wr(addr, rv[0]))), 7)
    } else if src == 6 {
        (q_clear(with_st(logged(m, rd(addr, rv[0])), set_reg(m.st, dest, rv[0]))), 7)
    } else if dest == 6 {
        (q_clear(logged(m, wr(addr, reg(m.st, src)))), 7)
    } else {
        (q_clear(with_st(m, set_reg(m.st, dest, reg(m.st, src)))), 4)
    }
}

/// LD r,n including LD (HL),n.
pub open spec fn sem_ld_r_n(m: Machine, opcode: u8, rv: Seq<u8>) -> (Machine, u32) {
    let m1 = operand(m, rv[0]);
    let dest = (opcode >> 3u8) & 7;
    if dest == 6 {
        (q_clear(logged(m1, wr(hl(m1.st), rv[0]))), 10)
    } else {
        (q_clear(with_st(m1, set_reg(m1.st, dest, rv[0]))), 7)
    }
}

/// LD A,(BC)/(DE): WZ = address + 1.
pub open spec fn sem_ld_a_irr(m: Machine, addr: u16, rv: Seq<u8>) -> (Machine, u32) {
    (q_clear(with_st(logged(m, rd(addr, rv[0])), CpuState { a: rv[0], wz: addr.wrapping_add(1), ..m.st })), 7)
}

/// The address latch after a write of A to `addr`: the low byte of
/// `addr` + 1, with A on the high byte.
pub open spec fn wz_after_a_write(a: u8, addr: u16) -> u16 {
    word(a, lo(addr.wrapping_add(1)))
}

/// LD (BC)/(DE),A.
pub open spec fn sem_ld_irr_a(m: Machine, addr: u16) -> (Machine, u32) {
    (q_clear(with_st(logged(m, wr(addr, m.st.a)), CpuState { wz: wz_after_a_write(m.st.a, addr), ..m.st })), 7)
}

pub open spec fn sem_ld_a_inn(m: Machine, rv: Seq<u8>) -> (Machine, u32) {
    let m1 = operand2(m, rv[0], rv[1]);
    let addr = word(rv[1], rv[0]);
    (q_clear(with_st(logged(m1, rd(addr, rv[2])), CpuState { a: rv[2], wz: addr.wrapping_add(1), ..m1.st })), 13)
}

pub open spec fn sem_ld_inn_a(m: Machine, rv: Seq<u8>) -> (Machine, u32) {
    let m1 = operand2(m, rv[0], rv[1]);
    let addr = word(rv[1], rv[0]);
    (q_clear(with_st(logged(m1, wr(addr, m.st.a)), CpuState { wz: wz_after_a_write(m.st.a, addr), ..m1.st })), 13)
}

pub open spec fn sem_ld_i_a(m: Machine) -> (Machine, u32) {
    (q_clear(with_st(m, CpuState { i: m.st.a, ..m.st })), 9)
}

pub open spec fn sem_ld_r_a(m: Machine) -> (Machine, u32) {
    (q_clear(with_st(m, CpuState { r: m.st.a, ..m.st })), 9)
}

/// LD A,I / LD A,R: the only loads that set flags. C kept; N = H = 0; S, Z,
/// X, Y from the value; P/V reports IFF2.
pub open spec fn ld_a_ir_flags(v: u8, f: u8, iff2: bool) -> u8 {
    (f & FLAG_C) | (szp_spec(v) & !FLAG_PV) | (if iff2 {
        FLAG_PV
    } else {
        0
    })
}

/// LD A,I (`from_r` false) / LD A,R.
pub open spec fn sem_ld_a_ir(m: Machine, from_r: bool) -> (Machine, u32) {
    let v = if from_r {
        m.st.r
    } else {
        m.st.i
    };
    (q_set(with_st(m, CpuState { a: v, f: ld_a_ir_flags(v, m.st.f, m.st.iff2), ..m.st })), 9)
}

/// LD (nn),rr: low byte to nn, high byte to nn+1; WZ = nn+1.
pub open spec fn sem_ld_nn_rr(m: Machine, value: u16, t: u32, rv: Seq<u8>) -> (Machine, u32) {
    let m1 = operand2(m, rv[0], rv[1]);
    let addr = word(rv[1], rv[0]);
    let a1 = addr.wrapping_add(1);
    (q_clear(with_st(logged(logged(m1, wr(addr, lo(value))), wr(a1, hi(value))), CpuState { wz: a1, ..m1.st })), t)
}

/// LD rr,(nn): low byte from nn, high byte from nn+1; WZ = nn+1; the word
/// lands in pair `index` (BC DE HL SP).
pub open spec fn sem_ld_rr_nn_mem(m: Machine, index: u8, t: u32, rv: Seq<u8>) -> (Machine, u32) {
    let m1 = operand2(m, rv[0], rv[1]);
    let addr = word(rv[1], rv[0]);
    let a1 = addr.wrapping_add(1);
    let m2 = logged(logged(m1, rd(addr, rv[2])), rd(a1, rv[3]));
    (q_clear(with_st(m2, set_pair(CpuState { wz: a1, ..m1.st }, index, word(rv[3], rv[2])))), t)
}

pub open spec fn sem_ld_sp_hl(m: Machine) -> (Machine, u32) {
    (q_clear(with_st(m, CpuState { sp: hl(m.st), ..m.st })), 6)
}

pub open spec fn sem_pop_rr(m: Machine, opcode: u8, rv: Seq<u8>) -> (Machine, u32) {
    let m1 = popped(m, rv[0], rv[1]);
    (q_clear(with_st(m1, set_pair(m1.st, (opcode >> 4u8) & 3, word(rv[1], rv[0])))), 10)
}

pub open spec fn sem_push_rr(m: Machine, opcode: u8) -> (Machine, u32) {
    (q_clear(pushed(m, pair(m.st, (opcode >> 4u8) & 3))), 11)
}

pub open spec fn sem_pop_af(m: Machine, rv: Seq<u8>) -> (Machine, u32) {
    let m1 = popped(m, rv[0], rv[1]);
    (q_clear(with_st(m1, CpuState { a: rv[1], f: rv[0], ..m1.st })), 10)
}

pub open spec fn sem_push_af(m: Machine) -> (Machine, u32) {
    (q_clear(pushed(m, word(m.st.a, m.st.f))), 11)
}

pub open spec fn sem_ld_rr_nn(m: Machine, opcode: u8, rv: Seq<u8>) -> (Machine, u32) {
    let m1 = operand2(m, rv[0], rv[1]);
    (q_clear(with_st(m1, set_pair(m1.st, (opcode >> 4u8) & 3, word(rv[1], rv[0])))), 10)
}

/// LD (nn),rr stores the word low byte first: the low byte at nn, the high
/// byte at nn + 1 (modulo 65536), and `low + 256 * high` is the value.
/// LD rr,(nn) run with the same operand bytes and fed back those two bytes
/// reads the same two addresses in the same order and loads the value stored.
pub proof fn lemma_store_then_load_word(m: Machine, value: u16, index: u8, rv: Seq<u8>)
    requires
        index < 4,
    ensures
        ({
            let m1 = sem_ld_nn_rr(m, value, 20, rv).0;
            let w = m1.ops;
            let n = w.len();
            let nn = rv[1] as int * 256 + rv[0] as int;
            let m2 = sem_ld_rr_nn_mem(m1, index, 20, seq![rv[0], rv[1], w[n - 2].value, w[n - 1].value]).0;
            let r = m2.ops;
            let k = r.len();
            &&& w[n - 2].addr as int == nn
            &&& w[n - 1].addr as int == (nn + 1) % 65536
            &&& w[n - 2].value as int + 256 * w[n - 1].value as int == value as int
            &&& r[k - 2].addr == w[n - 2].addr
            &&& r[k - 1].addr == w[n - 1].addr
            &&& pair(m2.st, index) == value
        }),
{
    crate::index::lemma_halves_arith(value, 0);
    crate::index::lemma_halves_arith(rv[0] as u16, rv[1]);
    assert((rv[0] as u16) % 256 == rv[0] as u16);
    crate::processor::lemma_word(hi(value), lo(value), value);
}

/// POP after PUSH gives the word back: the bytes PUSH wrote, read back by
/// POP from the addresses PUSH wrote them to, put the pushed pair's value in
/// the popped pair and restore SP.
pub proof fn lemma_push_then_pop(m: Machine, push_opcode: u8, pop_opcode: u8)
    requires
        (push_opcode >> 4u8) & 3 != 3,
        (pop_opcode >> 4u8) & 3 != 3,
    ensures
        ({
            let m1 = sem_push_rr(m, push_opcode).0;
            let w = m1.ops;
            let n = w.len();
            let m2 = sem_pop_rr(m1, pop_opcode, seq![w[n - 1].value, w[n - 2].value]).0;
            let r = m2.ops;
            let k = r.len();
            &&& pair(m2.st, (pop_opcode >> 4u8) & 3) == pair(m.st, (push_opcode >> 4u8) & 3)
            &&& m2.st.sp == m.st.sp
            &&& r[k - 2].addr == w[n - 1].addr
            &&& r[k - 1].addr == w[n - 2].addr
        }),
{
    let v = pair(m.st, (push_opcode >> 4u8) & 3);
    crate::processor::lemma_word(hi(v), lo(v), v);
    let m1 = sem_push_rr(m, push_opcode).0;
    let i = (pop_opcode >> 4u8) & 3;
    let st = popped(m1, lo(v), hi(v)).st;
    crate::processor::lemma_word(hi(v), lo(v), word(hi(v), lo(v)));
    assert(pair(set_pair(st, i, word(hi(v), lo(v))), i) == v);
}

impl<B: Bus> Z80<B> {
    /// LD r,r' -- includes the (HL) source and destination forms.
    pub fn op_ld_r_r(&mut self, opcode: u8) -> (t: u32)
        ensures
            host_kept(old(self).bus, final(self).bus),
            stepped(*old(self), *final(self), t, sem_ld_r_r(old(self).m(), opcode, new_replies(*old(self), *final(self)))),
    {
        let dest = (opcode >> 3u8) & 0x07;
        let src = opcode & 0x07;
        let addr = self.hl();
        let t_states = if src == 6 {
            let value = self.mem_read(addr);
            if dest == 6 {
                self.mem_write(addr, value);
            } else {
                self.write_reg(dest, value);
            }
            7
        } else if dest == 6 {
            let value = self.read_reg(src);
            self.mem_write(addr, value);
            7
        } else {
            let value = self.read_reg(src);
            self.write_reg(dest, value);
            4
        };
        self.update_q(false);
        t_states
    }

    /// LD r,n -- includes LD (HL),n.
    pub fn op_ld_r_n(&mut self, opcode: u8) -> (t: u32)
        ensures
            host_kept(old(self).bus, final(self).bus),
            stepped(*old(self), *final(self), t, sem_ld_r_n(old(self).m(), opcode, new_replies(*old(self), *final(self)))),
    {
        let value = self.read_operand_byte();
        let dest = (opcode >> 3u8) & 0x07;
        let t_states = if dest == 6 {
            let addr = self.hl();
            self.mem_write(addr, value);
            10
        } else {
            self.write_reg(dest, value);
            7
        };
        self.update_q(false);
        t_states
    }

    /// LD A,(BC)/(DE)
    pub fn op_ld_a_irr(&mut self, reg16: u16) -> (t: u32)
        ensures
            host_kept(old(self).bus, final(self).bus),
            stepped(*old(self), *final(self), t, sem_ld_a_irr(old(self).m(), reg16, new_replies(*old(self), *final(self)))),
    {
        self.wz = reg16;
        self.a = self.mem_read(reg16);
        self.wz = self.wz.wrapping_add(1);
        self.update_q(false);
        7
    }

    /// LD (BC)/(DE),A
    pub fn op_ld_irr_a(&mut self, reg16: u16) -> (t: u32)
        ensures
            host_kept(old(self).bus, final(self).bus),
            stepped(*old(self), *final(self), t, sem_ld_irr_a(old(self).m(), reg16)),
    {
        self.wz = reg16;
        let a = self.a;
        self.mem_write(reg16, a);
        // After the write the address latch increments its low byte only, and its
        // high byte is overwritten by A (the data bus value): WZ = A:(addr+1)&FF.
        self.wz = ((self.a as u16) << 8u16) | (self.wz.wrapping_add(1) as u8 as u16);
        self.update_q(false);
        7
    }

    /// LD A,(nn)
    pub fn op_ld_a_inn(&mut self) -> (t: u32)
        ensures
            host_kept(old(self).bus, final(self).bus),
            stepped(*old(self), *final(self), t, sem_ld_a_inn(old(self).m(), new_replies(*old(self), *final(self)))),
    {
        self.wz = self.read_operand_word();
        let addr = self.wz;
        self.a = self.mem_read(addr);
        self.wz = self.wz.wrapping_add(1);
        proof {
            crate::processor::lemma_word(hi(addr), lo(addr), addr);
            assert(new_replies(*old(self), *self) =~= seq![lo(addr), hi(addr), self.a]);
        }
        self.update_q(false);
        13
    }

    /// LD (nn),A
    pub fn op_ld_inn_a(&mut self) -> (t: u32)
        ensures
            host_kept(old(self).bus, final(self).bus),
            stepped(*old(self), *final(self), t, sem_ld_inn_a(old(self).m(), new_replies(*old(self), *final(self)))),
    {
        self.wz = self.read_operand_word();
        let addr = self.wz;
        let a = self.a;
        self.mem_write(addr, a);
        self.wz = ((self.a as u16) << 8u16) | (self.wz.wrapping_add(1) as u8 as u16);
        proof {
            crate::processor::lemma_word(hi(addr), lo(addr), addr);
            assert(new_replies(*old(self), *self) =~= seq![lo(addr), hi(addr)]);
        }
        self.update_q(false);
        13
    }

    /// LD I,A
    pub fn op_ld_i_a(&mut self) -> (t: u32)
        ensures
            host_kept(old(self).bus, final(self).bus),
            stepped(*old(self), *final(self), t, sem_ld_i_a(old(self).m())),
    {
        self.i = self.a;
        self.update_q(false);
        9
    }

    /// LD R,A
    pub fn op_ld_r_a(&mut self) -> (t: u32)
        ensures
            host_kept(old(self).bus, final(self).bus),
            stepped(*old(self), *final(self), t, sem_ld_r_a(old(self).m())),
    {
        self.r = self.a;
        self.update_q(false);
        9
    }

    fn ld_a_ir(&mut self, value: u8)
        ensures
            host_kept(old(self).bus, final(self).bus),
            final(self).m() == with_st(
                old(self).m(),
                CpuState { a: value, f: ld_a_ir_flags(value, old(self).f@, old(self).iff2), ..old(self).state() },
            ),
            final(self).replies@ == old(self).replies@,
    {
        self.a = value;
        let pv = if self.iff2 {
            FLAG_PV
        } else {
            0
        };
        let f = (self.f.byte() & FLAG_C) | (szp(value) & !FLAG_PV) | pv;
        self.f = crate::flags::Flags::new(f);
    }

    /// LD A,I -- the only load that sets flags; PV mirrors IFF2.
    pub fn op_ld_a_i(&mut self) -> (t: u32)
        ensures
            host_kept(old(self).bus, final(self).bus),
            stepped(*old(self), *final(self), t, sem_ld_a_ir(old(self).m(), false)),
    {
        let value = self.i;
        self.ld_a_ir(value);
        self.update_q(true);
        9
    }

    /// LD A,R -- the only load that sets flags; PV mirrors IFF2.
    pub fn op_ld_a_r(&mut self) -> (t: u32)
        ensures
            host_kept(old(self).bus, final(self).bus),
            stepped(*old(self), *final(self), t, sem_ld_a_ir(old(self).m(), true)),
    {
        let value = self.r;
        self.ld_a_ir(value);
        self.update_q(true);
        9
    }

    fn store_word(&mut self, value: u16, t_states: u32) -> (t: u32)
        ensures
            host_kept(old(self).bus, final(self).bus),
            stepped(*old(self), *final(self), t, sem_ld_nn_rr(old(self).m(), value, t_states, new_replies(*old(self), *final(self)))),
    {
        let addr = self.read_operand_word();
        self.mem_write(addr, value as u8);
        self.wz = addr.wrapping_add(1);
        let a1 = self.wz;
        self.mem_write(a1, (value >> 8u16) as u8);
        proof {
            crate::processor::lemma_word(hi(addr), lo(addr), addr);
            assert(new_replies(*old(self), *self) =~= seq![lo(addr), hi(addr)]);
        }
        self.update_q(false);
        t_states
    }

    fn load_word(&mut self, index: u8, t_states: u32) -> (t: u32)
        ensures
            host_kept(old(self).bus, final(self).bus),
            stepped(*old(self), *final(self), t, sem_ld_rr_nn_mem(old(self).m(), index, t_states, new_replies(*old(self), *final(self)))),
    {
        let addr = self.read_operand_word();
        let low = self.mem_read(addr);
        self.wz = addr.wrapping_add(1);
        let a1 = self.wz;
        let high = self.mem_read(a1);
        proof {
            crate::processor::lemma_word(hi(addr), lo(addr), addr);
            assert(new_replies(*old(self), *self) =~= seq![lo(addr), hi(addr), low, high]);
        }
        self.write_pair(index, ((high as u16) << 8u16) | (low as u16));
        self.update_q(false);
        t_states
    }

    /// LD (nn),HL
    pub fn op_ld_nn_hl(&mut self) -> (t: u32)
        ensures
            host_kept(old(self).bus, final(self).bus),
            stepped(*old(self), *final(self), t, sem_ld_nn_rr(old(self).m(), hl(old(self).state()), 16, new_replies(*old(self), *final(self)))),
    {
        let v = self.hl();
        self.store_word(v, 16)
    }

    /// LD HL,(nn)
    pub fn op_ld_hl_nn_from_mem(&mut self) -> (t: u32)
        ensures
            host_kept(old(self).bus, final(self).bus),
            stepped(*old(self), *final(self), t, sem_ld_rr_nn_mem(old(self).m(), 2, 16, new_replies(*old(self), *final(self)))),
    {
        self.load_word(2, 16)
    }

    /// LD (nn),rr for the ED-prefixed register-pair transfer forms.
    pub fn op_ld_nn_rr(&mut self, pair_index: u8) -> (t: u32)
        ensures
            host_kept(old(self).bus, final(self).bus),
            stepped(*old(self), *final(self), t, sem_ld_nn_rr(old(self).m(), pair(old(self).state(), pair_index), 20, new_replies(*old(self), *final(self)))),
    {
        let v = self.read_pair(pair_index);
        self.store_word(v, 20)
    }

    /// LD rr,(nn) for the ED-prefixed register-pair transfer forms.
    pub fn op_ld_rr_nn_from_mem(&mut self, pair_index: u8) -> (t: u32)
        ensures
            host_kept(old(self).bus, final(self).bus),
            stepped(*old(self), *final(self), t, sem_ld_rr_nn_mem(old(self).m(), pair_index, 20, new_replies(*old(self), *final(self)))),
    {
        self.load_word(pair_index, 20)
    }

    /// LD SP,HL -- copy HL into SP.
    pub fn op_ld_sp_hl(&mut self) -> (t: u32)
        ensures
            host_kept(old(self).bus, final(self).bus),
            stepped(*old(self), *final(self), t, sem_ld_sp_hl(old(self).m())),
    {
        self.sp = self.hl();
        self.update_q(false);
        6
    }

    /// POP rr
    pub fn op_pop_rr(&mut self, sub_opcode: u8) -> (t: u32)
        ensures
            host_kept(old(self).bus, final(self).bus),
            stepped(*old(self), *final(self), t, sem_pop_rr(old(self).m(), sub_opcode, new_replies(*old(self), *final(self)))),
    {
        let value = self.pop_word();
        proof {
            crate::processor::lemma_word(hi(value), lo(value), value);
        }
        self.write_pair((sub_opcode >> 4u8) & 0x03, value);
        self.update_q(false);
        10
    }

    /// PUSH rr
    pub fn op_push_rr(&mut self, sub_opcode: u8) -> (t: u32)
        ensures
            host_kept(old(self).bus, final(self).bus),
            stepped(*old(self), *final(self), t, sem_push_rr(old(self).m(), sub_opcode)),
    {
        let v = self.read_pair((sub_opcode >> 4u8) & 0x03);
        self.push_word(v);
        self.update_q(false);
        11
    }

    /// POP AF
    pub fn op_pop_af(&mut self) -> (t: u32)
        ensures
            host_kept(old(self).bus, final(self).bus),
            stepped(*old(self), *final(self), t, sem_pop_af(old(self).m(), new_replies(*old(self), *final(self)))),
    {
        let value = self.pop_word();
        self.a = (value >> 8u16) as u8;
        self.f.set_byte(value as u8);
        self.update_q(false);
        10
    }

    /// PUSH AF
    pub fn op_push_af(&mut self) -> (t: u32)
        ensures
            host_kept(old(self).bus, final(self).bus),
            stepped(*old(self), *final(self), t, sem_push_af(old(self).m())),
    {
        let v = ((self.a as u16) << 8u16) | (self.f.byte() as u16);
        self.push_word(v);
        self.update_q(false);
        11
    }

    /// LD rr,nn -- BC, DE, HL, or SP from a 16-bit immediate.
    pub fn op_ld_rr_nn(&mut self, opcode: u8) -> (t: u32)
        ensures
            host_kept(old(self).bus, final(self).bus),
            stepped(*old(self), *final(self), t, sem_ld_rr_nn(old(self).m(), opcode, new_replies(*old(self), *final(self)))),
    {
        let value = self.read_operand_word();
        proof {
            crate::processor::lemma_word(hi(value), lo(value), value);
        }
        self.write_pair((opcode >> 4u8) & 0x03, value);
        self.update_q(false);
        10
    }
}

} // verus!
