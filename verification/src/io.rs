//! Input/output instruction implementation.

use vstd::prelude::*;

use crate::alu::{flag_if, lemma_sz_xy, sz_xy, with_f};
use crate::flags::{
    parity, parity_bit, szp, szp_spec, FLAG_C, FLAG_H, FLAG_N, FLAG_PV, FLAG_S, FLAG_X, FLAG_Y, FLAG_Z,
};
use crate::processor::{
    bc, hi, hl, lo, logged, new_replies, operand, pin, pout, q_set, q_clear, reg, set_reg,
    stepped, with_st, word, wr, host_kept, Bus, Machine, Z80,
};
use crate::state::CpuState;

verus! {

broadcast use crate::flags::group_masks;

/// IN r,(C) flags: C kept; N = H = 0; S, Z, X, Y and parity from the byte.
pub open spec fn in_flags_spec(f: u8, value: u8) -> u8 {
    (f & FLAG_C) | szp_spec(value)
}

/// IN A,(n): port address A:n; WZ = that address + 1.
pub open spec fn sem_in_a_n(m: Machine, rv: Seq<u8>) -> (Machine, u32) {
    let m1 = operand(m, rv[0]);
    let port = word(m.st.a, rv[0]);
    (q_clear(with_st(logged(m1, pin(port, rv[1])), CpuState { a: rv[1], wz: port.wrapping_add(1), ..m1.st })), 11)
}

/// OUT (n),A: port address A:n; WZ keeps A high and increments the low byte.
pub open spec fn sem_out_n_a(m: Machine, rv: Seq<u8>) -> (Machine, u32) {
    let m1 = operand(m, rv[0]);
    let port = word(m.st.a, rv[0]);
    (q_clear(with_st(logged(m1, pout(port, m.st.a)), CpuState { wz: word(m.st.a, rv[0].wrapping_add(1)), ..m1.st })), 11)
}

/// IN r,(C), including the undocumented IN (C) that only sets flags.
pub open spec fn sem_in_r_c(m: Machine, opcode: u8, rv: Seq<u8>) -> (Machine, u32) {
    let dest = (opcode >> 3u8) & 7;
    let port = bc(m.st);
    let v = rv[0];
    let s1 = CpuState { wz: port.wrapping_add(1), f: in_flags_spec(m.st.f, v), ..m.st };
    let s2 = if dest != 6 {
        set_reg(s1, dest, v)
    } else {
        s1
    };
    (q_set(with_st(logged(m, pin(port, v)), s2)), 12)
}

/// OUT (C),r; the undocumented OUT (C),0 form writes zero (NMOS).
pub open spec fn sem_out_c_r(m: Machine, opcode: u8) -> (Machine, u32) {
    let src = (opcode >> 3u8) & 7;
    let port = bc(m.st);
    let v = if src == 6 {
        0
    } else {
        reg(m.st, src)
    };
    (q_clear(with_st(logged(m, pout(port, v)), CpuState { wz: port.wrapping_add(1), ..m.st })), 12)
}

/// Block I/O flags (Undocumented Z80 Documented, 4.3): N = bit 7 of the
/// byte moved, H = C = the carry of `adj` + byte, P/V = parity of
/// ((that sum & 7) ^ B), and S, Z, X, Y from the new B.
pub open spec fn block_io_flags(b: u8, data: u8, adj: u8) -> u8 {
    let sum = (adj + data) as u16;
    sz_xy(b) | flag_if(even_parity_of(((sum & 7) as u8) ^ b), FLAG_PV) | ((data >> 7u8) << 1u8)
        | flag_if(sum > 0xFF, FLAG_H | FLAG_C)
}

pub open spec fn even_parity_of(v: u8) -> bool {
    crate::flags::even_parity(v)
}

/// INI (`inc`) / IND: (HL) <- port BC; B--, HL++/--, WZ = BC+/-1.
pub open spec fn block_ini_spec(m: Machine, inc: bool, rv: Seq<u8>) -> Machine {
    let s = m.st;
    let port = bc(s);
    let data = rv[0];
    let wz = if inc {
        port.wrapping_add(1)
    } else {
        port.wrapping_sub(1)
    };
    let adj = if inc {
        s.c.wrapping_add(1)
    } else {
        s.c.wrapping_sub(1)
    };
    let b = s.b.wrapping_sub(1);
    let nhl = if inc {
        hl(s).wrapping_add(1)
    } else {
        hl(s).wrapping_sub(1)
    };
    let m1 = logged(logged(m, pin(port, data)), wr(hl(s), data));
    Machine {
        st: CpuState { wz, b, h: hi(nhl), l: lo(nhl), f: block_io_flags(b, data, adj), ..s },
        io_data: data,
        ..m1
    }
}

/// OUTI (`inc`) / OUTD: B--, then port BC <- (HL); HL++/--, WZ = BC+/-1.
pub open spec fn block_outi_spec(m: Machine, inc: bool, rv: Seq<u8>) -> Machine {
    let s = m.st;
    let data = rv[0];
    let nhl = if inc {
        hl(s).wrapping_add(1)
    } else {
        hl(s).wrapping_sub(1)
    };
    let b = s.b.wrapping_sub(1);
    let port = word(b, s.c);
    let wz = if inc {
        port.wrapping_add(1)
    } else {
        port.wrapping_sub(1)
    };
    let m1 = logged(logged(m, crate::processor::rd(hl(s), data)), pout(port, data));
    Machine {
        st: CpuState { wz, b, h: hi(nhl), l: lo(nhl), f: block_io_flags(b, data, lo(nhl)), ..s },
        io_data: data,
        ..m1
    }
}

/// The repeat of a block instruction: PC back to its first byte, WZ = PC + 1.
pub open spec fn repeat_spec(m: Machine) -> Machine {
    let pc = m.st.pc.wrapping_sub(2);
    with_st(m, CpuState { pc, wz: pc.wrapping_add(1), ..m.st })
}

/// 1 for odd parity.
pub open spec fn odd_bit(v: u8) -> u8 {
    (1 - parity_bit(v)) as u8
}

/// The extra flag adjustment of a repeating block I/O instruction after the
/// PC rewind: X/Y from the high byte of PC; when C is set, P/V and H are
/// corrected from B-1 or B+1 by bit 7 of the byte moved; else P/V from B.
pub open spec fn post_io_repeat_flags(f: u8, pc: u16, b: u8, io_data: u8) -> u8 {
    let f1 = (f & !(FLAG_X | FLAG_Y)) | (hi(pc) & (FLAG_X | FLAG_Y));
    let pv = (f1 >> 2u8) & 1;
    if f & FLAG_C != 0 {
        if io_data & 0x80 != 0 {
            (f1 & !(FLAG_PV | FLAG_H)) | ((pv ^ odd_bit(b.wrapping_sub(1) & 7)) << 2u8) | flag_if(
                (b & 0x0F) == 0,
                FLAG_H,
            )
        } else {
            (f1 & !(FLAG_PV | FLAG_H)) | ((pv ^ odd_bit(b.wrapping_add(1) & 7)) << 2u8) | flag_if(
                (b & 0x0F) == 0x0F,
                FLAG_H,
            )
        }
    } else {
        (f1 & !FLAG_PV) | ((pv ^ odd_bit(b & 7)) << 2u8)
    }
}

/// INI/IND/OUTI/OUTD, `repeat` adding INIR/INDR/OTIR/OTDR: repeats while
/// the new B is not zero, 21 T-states per repeat and 16 on the last.
pub open spec fn sem_block_io(m: Machine, out: bool, inc: bool, repeat: bool, rv: Seq<u8>) -> (Machine, u32) {
    let m1 = if out {
        block_outi_spec(m, inc, rv)
    } else {
        block_ini_spec(m, inc, rv)
    };
    if repeat && m1.st.b != 0 {
        let m2 = repeat_spec(m1);
        (q_set(with_f(m2, post_io_repeat_flags(m2.st.f, m2.st.pc, m2.st.b, m2.io_data))), 21)
    } else {
        (q_set(m1), 16)
    }
}

proof fn lemma_io_flag_bits(b: u8, data: u8, zf: u8, p: u8, hc: u8)
    by (bit_vector)
    requires
        zf == 0 || zf == FLAG_Z,
        p == 0 || p == FLAG_PV,
        hc == 0 || hc == (FLAG_H | FLAG_C),
    ensures
        ({
            let g = ((b & (FLAG_S | FLAG_X | FLAG_Y)) | zf) | p | ((data >> 7u8) << 1u8) | hc;
            &&& g & FLAG_Z == zf
            &&& (g & FLAG_N == FLAG_N) == (data >= 0x80)
        }),
{
}

proof fn lemma_io_repeat_keeps(g: u8, hpc: u8, o: u8, hh: u8)
    by (bit_vector)
    requires
        o <= 1,
        hh == 0 || hh == FLAG_H,
    ensures
        ({
            let f1 = (g & !(FLAG_X | FLAG_Y)) | (hpc & (FLAG_X | FLAG_Y));
            let pv = (f1 >> 2u8) & 1;
            &&& ((f1 & !(FLAG_PV | FLAG_H)) | ((pv ^ o) << 2u8) | hh) & (FLAG_Z | FLAG_N) == g & (FLAG_Z | FLAG_N)
            &&& ((f1 & !FLAG_PV) | ((pv ^ o) << 2u8)) & (FLAG_Z | FLAG_N) == g & (FLAG_Z | FLAG_N)
        }),
{
}

/// INI, IND, OUTI, OUTD and their repeating forms: one byte moves between
/// the port and the byte at HL -- INI reads port BC and writes (HL), OUTI
/// reads (HL) and writes it to port BC after B has counted down. B counts
/// down by one modulo 256 and HL moves one up (INI/OUTI) or down modulo
/// 65536. Z is set exactly when the new B is zero, N copies bit 7 of the byte
/// moved, and the repeating forms go back to their first byte (PC - 2)
/// exactly while B is not zero.
pub proof fn lemma_block_io(m: Machine, out: bool, inc: bool, repeat: bool, rv: Seq<u8>)
    ensures
        ({
            let o = sem_block_io(m, out, inc, repeat, rv).0;
            let step: int = if inc { 1 } else { -1 };
            let nb = (m.st.b as int - 1) % 256;
            let data = rv[0];
            &&& o.st.b as int == nb
            &&& hl(o.st) as int == (hl(m.st) as int + step) % 65536
            &&& !out ==> o.ops == m.ops.push(pin(bc(m.st), data)).push(wr(hl(m.st), data))
            &&& out ==> o.ops.drop_last() == m.ops.push(crate::processor::rd(hl(m.st), data))
            &&& out ==> o.ops.last() == pout(o.ops.last().addr, data)
            &&& out ==> o.ops.last().addr as int == nb * 256 + m.st.c as int
            &&& (o.st.f & FLAG_Z == FLAG_Z) == (o.st.b == 0)
            &&& (o.st.f & FLAG_N == FLAG_N) == (data >= 0x80)
            &&& o.st.pc as int == (if repeat && o.st.b != 0 { (m.st.pc as int - 2) % 65536 } else { m.st.pc as int })
        }),
{
    let s = m.st;
    let data = rv[0];
    let nhl = if inc { hl(s).wrapping_add(1) } else { hl(s).wrapping_sub(1) };
    let b = s.b.wrapping_sub(1);
    crate::processor::lemma_word(hi(nhl), lo(nhl), nhl);
    let c = s.c;
    assert((((b as u16) << 8u16) | (c as u16)) as int == b as int * 256 + c as int) by (bit_vector);
    let adj = if out { lo(nhl) } else if inc { s.c.wrapping_add(1) } else { s.c.wrapping_sub(1) };
    let sum = (adj + data) as u16;
    let zf = flag_if(b == 0, FLAG_Z);
    let p = flag_if(even_parity_of(((sum & 7) as u8) ^ b), FLAG_PV);
    let hc = flag_if(sum > 0xFF, FLAG_H | FLAG_C);
    lemma_io_flag_bits(b, data, zf, p, hc);
    let g = block_io_flags(b, data, adj);
    let m1 = if out { block_outi_spec(m, inc, rv) } else { block_ini_spec(m, inc, rv) };
    assert(m1.st.f == g);
    let m2 = repeat_spec(m1);
    let hpc = hi(m2.st.pc);
    let h1 = flag_if((b & 0x0F) == 0, FLAG_H);
    let h2 = flag_if((b & 0x0F) == 0x0F, FLAG_H);
    lemma_io_repeat_keeps(g, hpc, odd_bit(b.wrapping_sub(1) & 7), h1);
    lemma_io_repeat_keeps(g, hpc, odd_bit(b.wrapping_add(1) & 7), h2);
    lemma_io_repeat_keeps(g, hpc, odd_bit(b & 7), 0);
    let k = post_io_repeat_flags(g, m2.st.pc, b, data);
    assert(k & (FLAG_Z | FLAG_N) == g & (FLAG_Z | FLAG_N));
    assert(g & (FLAG_Z | FLAG_N) == k & (FLAG_Z | FLAG_N) ==> (k & FLAG_Z == g & FLAG_Z && k & FLAG_N == g & FLAG_N)) by (bit_vector);
}

impl<B: Bus> Z80<B> {
    pub fn in_flags(&mut self, value: u8)
        ensures
            host_kept(old(self).bus, final(self).bus),
            final(self).m() == with_f(old(self).m(), in_flags_spec(old(self).f@, value)),
            final(self).replies@ == old(self).replies@,
    {
        // C is preserved; N = H = 0; S, Z, X, Y and parity from the byte.
        let f = (self.f.byte() & FLAG_C) | szp(value);
        self.f = crate::flags::Flags::new(f);
    }

    /// IN A,(n) -- port address is A:n.
    pub fn op_in_a_n(&mut self) -> (t: u32)
        ensures
            host_kept(old(self).bus, final(self).bus),
            stepped(*old(self), *final(self), t, sem_in_a_n(old(self).m(), new_replies(*old(self), *final(self)))),
    {
        let low = self.read_operand_byte();
        self.wz = ((self.a as u16) << 8u16) | (low as u16);
        let port = self.wz;
        self.a = self.port_read(port);
        self.wz = self.wz.wrapping_add(1);
        assert(new_replies(*old(self), *self) =~= seq![low, self.a]);
        self.update_q(false);
        11
    }

    /// OUT (n),A -- port address is A:n.
    pub fn op_out_n_a(&mut self) -> (t: u32)
        ensures
            host_kept(old(self).bus, final(self).bus),
            stepped(*old(self), *final(self), t, sem_out_n_a(old(self).m(), new_replies(*old(self), *final(self)))),
    {
        let low = self.read_operand_byte();
        self.wz = ((self.a as u16) << 8u16) | (low as u16);
        let port = self.wz;
        let a = self.a;
        self.port_write(port, a);
        // Same latch behavior as LD (nn),A: the port's high byte (A) is kept and only
        // the low byte of the address increments.
        self.wz = ((a as u16) << 8u16) | (low.wrapping_add(1) as u16);
        self.update_q(false);
        11
    }

    /// IN r,(C) -- includes the undocumented IN (C) / IN F,(C) form that only sets flags.
    pub fn op_in_r_c(&mut self, opcode: u8) -> (t: u32)
        ensures
            host_kept(old(self).bus, final(self).bus),
            stepped(*old(self), *final(self), t, sem_in_r_c(old(self).m(), opcode, new_replies(*old(self), *final(self)))),
    {
        let dest = (opcode >> 3u8) & 0x07;
        let port = self.bc();
        self.wz = port.wrapping_add(1);
        let value = self.port_read(port);
        self.in_flags(value);
        if dest != 6 {
            self.write_reg(dest, value);
        }
        self.update_q(true);
        12
    }

    /// OUT (C),r -- the undocumented OUT (C),0 form writes zero on NMOS parts.
    pub fn op_out_c_r(&mut self, opcode: u8) -> (t: u32)
        ensures
            host_kept(old(self).bus, final(self).bus),
            stepped(*old(self), *final(self), t, sem_out_c_r(old(self).m(), opcode)),
    {
        let src = (opcode >> 3u8) & 0x07;
        let addr = self.bc();
        // OUT (C),0: the undocumented (HL) slot has no register, NMOS parts drive 0.
        let value = if src == 6 {
            0
        } else {
            self.read_reg(src)
        };
        self.port_write(addr, value);
        self.wz = addr.wrapping_add(1);
        self.update_q(false);
        12
    }

    fn set_block_io_flags(&mut self, data: u8, adj: u8)
        ensures
            host_kept(old(self).bus, final(self).bus),
            final(self).m() == with_f(old(self).m(), block_io_flags(old(self).b, data, adj)),
            final(self).replies@ == old(self).replies@,
    {
        let b = self.b;
        let sum: u16 = (adj as u16) + (data as u16);
        let pv = if parity(((sum & 7) as u8) ^ b) == 1 {
            FLAG_PV
        } else {
            0
        };
        let hc = if sum > 0xFF {
            FLAG_H | FLAG_C
        } else {
            0
        };
        proof {
            lemma_sz_xy(b);
        }
        let f = (szp(b) & !FLAG_PV) | pv | ((data >> 7u8) << 1u8) | hc;
        self.f = crate::flags::Flags::new(f);
    }

    pub fn block_ini(&mut self, increment: bool) -> (repeat: bool)
        ensures
            host_kept(old(self).bus, final(self).bus),
            final(self).m() == block_ini_spec(old(self).m(), increment, new_replies(*old(self), *final(self))),
            old(self).replies@.is_prefix_of(final(self).replies@),
            repeat == (final(self).b != 0),
    {
        let port = self.bc();
        self.wz = if increment {
            port.wrapping_add(1)
        } else {
            port.wrapping_sub(1)
        };
        let adj = if increment {
            self.c.wrapping_add(1)
        } else {
            self.c.wrapping_sub(1)
        };
        let data = self.port_read(port);
        self.io_data = data;
        self.b = self.b.wrapping_sub(1);
        let addr = self.hl();
        self.mem_write(addr, data);
        let hl = if increment {
            addr.wrapping_add(1)
        } else {
            addr.wrapping_sub(1)
        };
        self.h = (hl >> 8u16) as u8;
        self.l = hl as u8;
        self.set_block_io_flags(data, adj);
        self.b != 0
    }

    pub fn block_outi(&mut self, increment: bool) -> (repeat: bool)
        ensures
            host_kept(old(self).bus, final(self).bus),
            final(self).m() == block_outi_spec(old(self).m(), increment, new_replies(*old(self), *final(self))),
            old(self).replies@.is_prefix_of(final(self).replies@),
            repeat == (final(self).b != 0),
    {
        let addr = self.hl();
        let data = self.mem_read(addr);
        self.io_data = data;
        let hl = if increment {
            addr.wrapping_add(1)
        } else {
            addr.wrapping_sub(1)
        };
        self.h = (hl >> 8u16) as u8;
        self.l = hl as u8;
        self.b = self.b.wrapping_sub(1);
        let port = self.bc();
        self.port_write(port, data);
        self.wz = if increment {
            port.wrapping_add(1)
        } else {
            port.wrapping_sub(1)
        };
        let l = self.l;
        self.set_block_io_flags(data, l);
        self.b != 0
    }

    /// Rewind PC to the first byte of a repeating block instruction.
    pub fn block_repeat(&mut self)
        ensures
            host_kept(old(self).bus, final(self).bus),
            final(self).m() == repeat_spec(old(self).m()),
            final(self).replies@ == old(self).replies@,
    {
        self.pc = self.pc.wrapping_sub(2);
        self.wz = self.pc.wrapping_add(1);
    }

    // Repeating block I/O adjusts flags once more after the PC rewind: X/Y
    // from PC high byte bits 3/5, and when C is set, PV and H are corrected
    // from B+/-1 depending on bit 7 of the byte moved.
    pub fn post_in_o_r(&mut self)
        ensures
            host_kept(old(self).bus, final(self).bus),
            final(self).m() == with_f(old(self).m(), post_io_repeat_flags(old(self).f@, old(self).pc, old(self).b, old(self).io_data)),
            final(self).replies@ == old(self).replies@,
    {
        let f = self.f.byte();
        let f1 = (f & !(FLAG_X | FLAG_Y)) | ((self.pc >> 8u16) as u8 & (FLAG_X | FLAG_Y));
        let pv = (f1 >> 2u8) & 1;
        let b = self.b;
        let nf = if f & FLAG_C != 0 {
            if self.io_data & 0x80 != 0 {
                let h = if (b & 0x0F) == 0 {
                    FLAG_H
                } else {
                    0
                };
                (f1 & !(FLAG_PV | FLAG_H)) | ((pv ^ (1 - parity(b.wrapping_sub(1) & 7))) << 2u8) | h
            } else {
                let h = if (b & 0x0F) == 0x0F {
                    FLAG_H
                } else {
                    0
                };
                (f1 & !(FLAG_PV | FLAG_H)) | ((pv ^ (1 - parity(b.wrapping_add(1) & 7))) << 2u8) | h
            }
        } else {
            (f1 & !FLAG_PV) | ((pv ^ (1 - parity(b & 7))) << 2u8)
        };
        self.f = crate::flags::Flags::new(nf);
    }

    fn block_io(&mut self, out: bool, increment: bool, repeat: bool) -> (t: u32)
        ensures
            host_kept(old(self).bus, final(self).bus),
            stepped(*old(self), *final(self), t, sem_block_io(old(self).m(), out, increment, repeat, new_replies(*old(self), *final(self)))),
    {
        let again = if out {
            self.block_outi(increment)
        } else {
            self.block_ini(increment)
        };
        if repeat && again {
            self.block_repeat();
            self.post_in_o_r();
        }
        self.update_q(true);
        if repeat && again {
            21
        } else {
            16
        }
    }

    /// INI -- (HL) <- port BC; HL++, B--.
    pub fn op_ini(&mut self) -> (t: u32)
        ensures
            host_kept(old(self).bus, final(self).bus),
            stepped(*old(self), *final(self), t, sem_block_io(old(self).m(), false, true, false, new_replies(*old(self), *final(self)))),
    {
        self.block_io(false, true, false)
    }

    /// IND -- (HL) <- port BC; HL--, B--.
    pub fn op_ind(&mut self) -> (t: u32)
        ensures
            host_kept(old(self).bus, final(self).bus),
            stepped(*old(self), *final(self), t, sem_block_io(old(self).m(), false, false, false, new_replies(*old(self), *final(self)))),
    {
        self.block_io(false, false, false)
    }

    /// OUTI -- B--, then port BC <- (HL); HL++.
    pub fn op_outi(&mut self) -> (t: u32)
        ensures
            host_kept(old(self).bus, final(self).bus),
            stepped(*old(self), *final(self), t, sem_block_io(old(self).m(), true, true, false, new_replies(*old(self), *final(self)))),
    {
        self.block_io(true, true, false)
    }

    /// OUTD -- B--, then port BC <- (HL); HL--.
    pub fn op_outd(&mut self) -> (t: u32)
        ensures
            host_kept(old(self).bus, final(self).bus),
            stepped(*old(self), *final(self), t, sem_block_io(old(self).m(), true, false, false, new_replies(*old(self), *final(self)))),
    {
        self.block_io(true, false, false)
    }

    /// INIR -- INI repeated while B != 0; 21 T-states per repeat, 16 on the last.
    pub fn op_inir(&mut self) -> (t: u32)
        ensures
            host_kept(old(self).bus, final(self).bus),
            stepped(*old(self), *final(self), t, sem_block_io(old(self).m(), false, true, true, new_replies(*old(self), *final(self)))),
    {
        self.block_io(false, true, true)
    }

    /// INDR -- IND repeated while B != 0; 21 T-states per repeat, 16 on the last.
    pub fn op_indr(&mut self) -> (t: u32)
        ensures
            host_kept(old(self).bus, final(self).bus),
            stepped(*old(self), *final(self), t, sem_block_io(old(self).m(), false, false, true, new_replies(*old(self), *final(self)))),
    {
        self.block_io(false, false, true)
    }

    /// OTIR -- OUTI repeated while B != 0; 21 T-states per repeat, 16 on the last.
    pub fn op_otir(&mut self) -> (t: u32)
        ensures
            host_kept(old(self).bus, final(self).bus),
            stepped(*old(self), *final(self), t, sem_block_io(old(self).m(), true, true, true, new_replies(*old(self), *final(self)))),
    {
        self.block_io(true, true, true)
    }

    /// OTDR -- OUTD repeated while B != 0; 21 T-states per repeat, 16 on the last.
    pub fn op_otdr(&mut self) -> (t: u32)
        ensures
            host_kept(old(self).bus, final(self).bus),
            stepped(*old(self), *final(self), t, sem_block_io(old(self).m(), true, false, true, new_replies(*old(self), *final(self)))),
    {
        self.block_io(true, false, true)
    }
}

} // verus!
