//! Block transfer and block compare: LDI/LDD/LDIR/LDDR and CPI/CPD/CPIR/CPDR.

use vstd::prelude::*;

use crate::alu::{flag_if, sub8_res, with_f};
use crate::flags::{FLAG_C, FLAG_H, FLAG_N, FLAG_PV, FLAG_S, FLAG_X, FLAG_Y, FLAG_Z};
use crate::io::repeat_spec;
use crate::processor::{
    bc, de, hi, hl, lemma_word, lo, logged, new_replies, q_set, rd, stepped, with_st, wr, host_kept, Bus, Machine, Z80,
};
use crate::state::CpuState;

verus! {

broadcast use crate::flags::group_masks;

/// X from bit 3 and Y from bit 1 of `n`, the undocumented copies the block
/// instructions leave.
pub open spec fn block_xy(n: u8) -> u8 {
    (n & FLAG_X) | ((n & 0x02) << 4u8)
}

/// The flags a repeating block instruction leaves after the PC rewind: X
/// and Y from the high byte of the rewound PC.
pub open spec fn repeat_xy(f: u8, pc: u16) -> u8 {
    (f & !(FLAG_X | FLAG_Y)) | (hi(pc) & (FLAG_X | FLAG_Y))
}

/// LDI (`inc`) / LDD: (DE) <- (HL); HL, DE step; BC--. S, Z, C kept; H = N
/// = 0; P/V = BC != 0; X/Y from the byte moved plus A.
pub open spec fn ldi_spec(m: Machine, inc: bool, rv: Seq<u8>) -> Machine {
    let s = m.st;
    let v = rv[0];
    let step = |x: u16|
        if inc {
            x.wrapping_add(1)
        } else {
            x.wrapping_sub(1)
        };
    let nhl = step(hl(s));
    let nde = step(de(s));
    let nbc = bc(s).wrapping_sub(1);
    let n = v.wrapping_add(s.a);
    let f = (s.f & (FLAG_S | FLAG_Z | FLAG_C)) | block_xy(n) | flag_if(nbc != 0, FLAG_PV);
    with_st(
        logged(logged(m, rd(hl(s), v)), wr(de(s), v)),
        CpuState { h: hi(nhl), l: lo(nhl), d: hi(nde), e: lo(nde), b: hi(nbc), c: lo(nbc), f, ..s },
    )
}

/// CPI (`inc`) / CPD: compare A with (HL); HL steps, BC--, WZ steps. C kept;
/// N = 1; S, Z, H from A - (HL); P/V = BC != 0; X/Y from that difference
/// less H.
pub open spec fn cpi_spec(m: Machine, inc: bool, rv: Seq<u8>) -> Machine {
    let s = m.st;
    let v = rv[0];
    let step = |x: u16|
        if inc {
            x.wrapping_add(1)
        } else {
            x.wrapping_sub(1)
        };
    let nhl = step(hl(s));
    let nbc = bc(s).wrapping_sub(1);
    let r = sub8_res(s.a, v, 0);
    let half = s.a % 16 < v % 16;
    let n = r.wrapping_sub(if half {
        1u8
    } else {
        0u8
    });
    let f = (s.f & FLAG_C) | FLAG_N | (r & FLAG_S) | flag_if(r == 0, FLAG_Z) | flag_if(half, FLAG_H)
        | flag_if(nbc != 0, FLAG_PV) | block_xy(n);
    with_st(
        logged(m, rd(hl(s), v)),
        CpuState { h: hi(nhl), l: lo(nhl), b: hi(nbc), c: lo(nbc), wz: step(s.wz), f, ..s },
    )
}

/// LDI/LDD, `repeat` adding LDIR/LDDR: repeats while BC != 0, 21 T-states
/// per repeat and 16 on the last.
pub open spec fn sem_ldi(m: Machine, inc: bool, repeat: bool, rv: Seq<u8>) -> (Machine, u32) {
    let m1 = ldi_spec(m, inc, rv);
    if repeat && bc(m1.st) != 0 {
        let m2 = repeat_spec(m1);
        (q_set(with_f(m2, repeat_xy(m2.st.f, m2.st.pc))), 21)
    } else {
        (q_set(m1), 16)
    }
}

/// CPI/CPD, `repeat` adding CPIR/CPDR: repeats while BC != 0 and no match.
pub open spec fn sem_cpi(m: Machine, inc: bool, repeat: bool, rv: Seq<u8>) -> (Machine, u32) {
    let m1 = cpi_spec(m, inc, rv);
    if repeat && bc(m1.st) != 0 && sub8_res(m.st.a, rv[0], 0) != 0 {
        let m2 = repeat_spec(m1);
        (q_set(with_f(m2, repeat_xy(m2.st.f, m2.st.pc))), 21)
    } else {
        (q_set(m1), 16)
    }
}

proof fn lemma_half_borrow(a: u8, v: u8)
    by (bit_vector)
    ensures
        ((a & 0x0F) < (v & 0x0F)) == (a % 16 < v % 16),
{
}

proof fn lemma_block_flag_bits(f: u8, n: u8, pv: u8, pc_hi: u8)
    by (bit_vector)
    requires
        pv == 0 || pv == FLAG_PV,
    ensures
        ({
            let g = (f & (FLAG_S | FLAG_Z | FLAG_C)) | ((n & FLAG_X) | ((n & 0x02) << 4u8)) | pv;
            let h = (g & !(FLAG_X | FLAG_Y)) | (pc_hi & (FLAG_X | FLAG_Y));
            &&& g & FLAG_PV == pv
            &&& g & FLAG_C == f & FLAG_C
            &&& h & FLAG_PV == pv
            &&& h & FLAG_C == f & FLAG_C
        }),
{
}

/// LDI, LDD, LDIR and LDDR: the byte read at HL is written at DE; HL and DE
/// move one up (LDI) or down (LDD) modulo 65536 and BC counts down by one;
/// P/V is set exactly when BC is not zero afterwards, C is kept, and the
/// repeating forms go back to their first byte (PC - 2) exactly then.
pub proof fn lemma_block_transfer(m: Machine, inc: bool, repeat: bool, rv: Seq<u8>)
    ensures
        ({
            let out = sem_ldi(m, inc, repeat, rv).0;
            let step: int = if inc { 1 } else { -1 };
            let more = bc(out.st) != 0;
            &&& out.ops == m.ops.push(rd(hl(m.st), rv[0])).push(wr(de(m.st), rv[0]))
            &&& hl(out.st) as int == (hl(m.st) as int + step) % 65536
            &&& de(out.st) as int == (de(m.st) as int + step) % 65536
            &&& bc(out.st) as int == (bc(m.st) as int - 1) % 65536
            &&& (out.st.f & FLAG_PV == FLAG_PV) == more
            &&& out.st.f & FLAG_C == m.st.f & FLAG_C
            &&& out.st.pc as int == (if repeat && more { (m.st.pc as int - 2) % 65536 } else { m.st.pc as int })
        }),
{
    let s = m.st;
    let step = |x: u16| if inc { x.wrapping_add(1) } else { x.wrapping_sub(1) };
    let nhl = step(hl(s));
    let nde = step(de(s));
    let nbc = bc(s).wrapping_sub(1);
    lemma_word(hi(nhl), lo(nhl), nhl);
    lemma_word(hi(nde), lo(nde), nde);
    lemma_word(hi(nbc), lo(nbc), nbc);
    let m1 = ldi_spec(m, inc, rv);
    let n = rv[0].wrapping_add(s.a);
    let pv = flag_if(nbc != 0, FLAG_PV);
    let pc = m1.st.pc.wrapping_sub(2);
    lemma_block_flag_bits(s.f, n, pv, hi(pc));
}

/// CPI, CPD, CPIR and CPDR: A is compared with the byte at HL, which is only
/// read: Z is set exactly when they are equal, N is set and C kept; A stays;
/// HL moves one up (CPI) or down (CPD) modulo 65536 and BC counts down by
/// one; P/V is set exactly when BC is not zero afterwards, and the repeating
/// forms go back to their first byte (PC - 2) exactly when BC is not zero
/// and there was no match.
pub proof fn lemma_block_compare(m: Machine, inc: bool, repeat: bool, rv: Seq<u8>)
    ensures
        ({
            let out = sem_cpi(m, inc, repeat, rv).0;
            let step: int = if inc { 1 } else { -1 };
            let more = bc(out.st) != 0;
            let found = m.st.a == rv[0];
            &&& out.ops == m.ops.push(rd(hl(m.st), rv[0]))
            &&& out.st.a == m.st.a
            &&& hl(out.st) as int == (hl(m.st) as int + step) % 65536
            &&& bc(out.st) as int == (bc(m.st) as int - 1) % 65536
            &&& (out.st.f & FLAG_Z == FLAG_Z) == found
            &&& (out.st.f & FLAG_PV == FLAG_PV) == more
            &&& out.st.f & FLAG_C == m.st.f & FLAG_C
            &&& out.st.f & FLAG_N == FLAG_N
            &&& out.st.pc as int == (if repeat && more && !found { (m.st.pc as int - 2) % 65536 } else { m.st.pc as int })
        }),
{
    let s = m.st;
    let v = rv[0];
    let step = |x: u16| if inc { x.wrapping_add(1) } else { x.wrapping_sub(1) };
    let nhl = step(hl(s));
    let nbc = bc(s).wrapping_sub(1);
    lemma_word(hi(nhl), lo(nhl), nhl);
    lemma_word(hi(nbc), lo(nbc), nbc);
    let r = sub8_res(s.a, v, 0);
    let half = s.a % 16 < v % 16;
    let n = r.wrapping_sub(if half { 1u8 } else { 0u8 });
    let z = flag_if(r == 0, FLAG_Z);
    let h = flag_if(half, FLAG_H);
    let pv = flag_if(nbc != 0, FLAG_PV);
    let f0 = s.f;
    let m1 = cpi_spec(m, inc, rv);
    let pc_hi = hi(m1.st.pc.wrapping_sub(2));
    assert((z == 0 || z == FLAG_Z) && (h == 0 || h == FLAG_H) && (pv == 0 || pv == FLAG_PV) ==> {
        let g = (f0 & FLAG_C) | FLAG_N | (r & FLAG_S) | z | h | pv | ((n & FLAG_X) | ((n & 0x02) << 4u8));
        let k = (g & !(FLAG_X | FLAG_Y)) | (pc_hi & (FLAG_X | FLAG_Y));
        &&& g & FLAG_C == f0 & FLAG_C
        &&& g & FLAG_N == FLAG_N
        &&& g & FLAG_Z == z
        &&& g & FLAG_PV == pv
        &&& k & FLAG_C == f0 & FLAG_C
        &&& k & FLAG_N == FLAG_N
        &&& k & FLAG_Z == z
        &&& k & FLAG_PV == pv
    }) by (bit_vector);
    assert((r == 0) == (s.a == v));
}

impl<B: Bus> Z80<B> {
    fn set_bc(&mut self, value: u16)
        ensures
            host_kept(old(self).bus, final(self).bus),
            final(self).m() == with_st(old(self).m(), CpuState { b: hi(value), c: lo(value), ..old(self).state() }),
            final(self).replies@ == old(self).replies@,
    {
        self.b = (value >> 8u16) as u8;
        self.c = value as u8;
    }

    fn repeat_flags(&mut self)
        ensures
            host_kept(old(self).bus, final(self).bus),
            final(self).m() == with_f(old(self).m(), repeat_xy(old(self).f@, old(self).pc)),
            final(self).replies@ == old(self).replies@,
    {
        let f = (self.f.byte() & !(FLAG_X | FLAG_Y)) | ((self.pc >> 8u16) as u8 & (FLAG_X | FLAG_Y));
        self.f = crate::flags::Flags::new(f);
    }

    fn block_ld(&mut self, increment: bool, repeat: bool) -> (t: u32)
        ensures
            host_kept(old(self).bus, final(self).bus),
            stepped(*old(self), *final(self), t, sem_ldi(old(self).m(), increment, repeat, new_replies(*old(self), *final(self)))),
    {
        let src = self.hl();
        let dst = self.de();
        let value = self.mem_read(src);
        self.mem_write(dst, value);
        let nhl = if increment {
            src.wrapping_add(1)
        } else {
            src.wrapping_sub(1)
        };
        let nde = if increment {
            dst.wrapping_add(1)
        } else {
            dst.wrapping_sub(1)
        };
        self.h = (nhl >> 8u16) as u8;
        self.l = nhl as u8;
        self.d = (nde >> 8u16) as u8;
        self.e = nde as u8;
        let nbc = self.bc().wrapping_sub(1);
        self.set_bc(nbc);
        let n = value.wrapping_add(self.a);
        let pv = if nbc != 0 {
            FLAG_PV
        } else {
            0
        };
        let f = (self.f.byte() & (FLAG_S | FLAG_Z | FLAG_C)) | ((n & FLAG_X) | ((n & 0x02) << 4u8)) | pv;
        self.f = crate::flags::Flags::new(f);
        proof {
            crate::processor::lemma_word(hi(nbc), lo(nbc), nbc);
        }
        let again = repeat && nbc != 0;
        if again {
            self.block_repeat();
            self.repeat_flags();
        }
        self.update_q(true);
        if again {
            21
        } else {
            16
        }
    }

    #[verifier::rlimit(40)]
    fn block_cp(&mut self, increment: bool, repeat: bool) -> (t: u32)
        ensures
            host_kept(old(self).bus, final(self).bus),
            stepped(*old(self), *final(self), t, sem_cpi(old(self).m(), increment, repeat, new_replies(*old(self), *final(self)))),
    {
        let src = self.hl();
        let value = self.mem_read(src);
        let a = self.a;
        let r = crate::alu::sub8(a, value, 0).0;
        proof {
            lemma_half_borrow(a, value);
        }
        let half = (a & 0x0F) < (value & 0x0F);
        let nhl = if increment {
            src.wrapping_add(1)
        } else {
            src.wrapping_sub(1)
        };
        self.h = (nhl >> 8u16) as u8;
        self.l = nhl as u8;
        let nbc = self.bc().wrapping_sub(1);
        self.set_bc(nbc);
        self.wz = if increment {
            self.wz.wrapping_add(1)
        } else {
            self.wz.wrapping_sub(1)
        };
        let n = r.wrapping_sub(if half {
            1u8
        } else {
            0u8
        });
        let z = if r == 0 {
            FLAG_Z
        } else {
            0
        };
        let h = if half {
            FLAG_H
        } else {
            0
        };
        let pv = if nbc != 0 {
            FLAG_PV
        } else {
            0
        };
        let f = (self.f.byte() & FLAG_C) | FLAG_N | (r & FLAG_S) | z | h | pv | ((n & FLAG_X) | ((n
            & 0x02) << 4u8));
        self.f = crate::flags::Flags::new(f);
        proof {
            crate::processor::lemma_word(hi(nbc), lo(nbc), nbc);
        }
        let again = repeat && nbc != 0 && r != 0;
        if again {
            self.block_repeat();
            self.repeat_flags();
        }
        self.update_q(true);
        if again {
            21
        } else {
            16
        }
    }

    /// LDI -- (DE) <- (HL); HL++, DE++, BC--.
    pub fn op_ldi(&mut self) -> (t: u32)
        ensures
            host_kept(old(self).bus, final(self).bus),
            stepped(*old(self), *final(self), t, sem_ldi(old(self).m(), true, false, new_replies(*old(self), *final(self)))),
    {
        self.block_ld(true, false)
    }

    /// LDD -- (DE) <- (HL); HL--, DE--, BC--.
    pub fn op_ldd(&mut self) -> (t: u32)
        ensures
            host_kept(old(self).bus, final(self).bus),
            stepped(*old(self), *final(self), t, sem_ldi(old(self).m(), false, false, new_replies(*old(self), *final(self)))),
    {
        self.block_ld(false, false)
    }

    /// LDIR -- LDI repeated while BC != 0; 21 T-states per repeat, 16 on the last.
    pub fn op_ldir(&mut self) -> (t: u32)
        ensures
            host_kept(old(self).bus, final(self).bus),
            stepped(*old(self), *final(self), t, sem_ldi(old(self).m(), true, true, new_replies(*old(self), *final(self)))),
    {
        self.block_ld(true, true)
    }

    /// LDDR -- LDD repeated while BC != 0; 21 T-states per repeat, 16 on the last.
    pub fn op_lddr(&mut self) -> (t: u32)
        ensures
            host_kept(old(self).bus, final(self).bus),
            stepped(*old(self), *final(self), t, sem_ldi(old(self).m(), false, true, new_replies(*old(self), *final(self)))),
    {
        self.block_ld(false, true)
    }

    /// CPI -- compare A with (HL); HL++, BC--.
    pub fn op_cpi(&mut self) -> (t: u32)
        ensures
            host_kept(old(self).bus, final(self).bus),
            stepped(*old(self), *final(self), t, sem_cpi(old(self).m(), true, false, new_replies(*old(self), *final(self)))),
    {
        self.block_cp(true, false)
    }

    /// CPD -- compare A with (HL); HL--, BC--.
    pub fn op_cpd(&mut self) -> (t: u32)
        ensures
            host_kept(old(self).bus, final(self).bus),
            stepped(*old(self), *final(self), t, sem_cpi(old(self).m(), false, false, new_replies(*old(self), *final(self)))),
    {
        self.block_cp(false, false)
    }

    /// CPIR -- CPI repeated while BC != 0 and A != (HL).
    pub fn op_cpir(&mut self) -> (t: u32)
        ensures
            host_kept(old(self).bus, final(self).bus),
            stepped(*old(self), *final(self), t, sem_cpi(old(self).m(), true, true, new_replies(*old(self), *final(self)))),
    {
        self.block_cp(true, true)
    }

    /// CPDR -- CPD repeated while BC != 0 and A != (HL).
    pub fn op_cpdr(&mut self) -> (t: u32)
        ensures
            host_kept(old(self).bus, final(self).bus),
            stepped(*old(self), *final(self), t, sem_cpi(old(self).m(), false, true, new_replies(*old(self), *final(self)))),
    {
        self.block_cp(false, true)
    }
}

} // verus!
