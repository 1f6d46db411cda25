//! Eight- and sixteen-bit arithmetic: the ALU primitives, with their flags
//! stated arithmetically, and the arithmetic instruction handlers.

use vstd::prelude::*;

use crate::flags::{szp, szp_spec, FLAG_C, FLAG_H, FLAG_N, FLAG_PV, FLAG_S, FLAG_X, FLAG_Y, FLAG_Z};
use crate::processor::{
    hi, hl, lo, logged, new_replies, pair, q_set, rd, reg, set_pair, stepped, with_st, wr, host_kept, Bus, Machine, Z80,
};
use crate::state::CpuState;

verus! {

broadcast use crate::flags::group_masks;

/// The value of a byte read as a two's-complement number.
pub open spec fn signed8(v: u8) -> int {
    if v >= 128 {
        v - 256
    } else {
        v as int
    }
}

/// The value of a word read as a two's-complement number.
pub open spec fn signed16(v: u16) -> int {
    if v >= 0x8000 {
        v - 0x10000
    } else {
        v as int
    }
}

/// `mask` when `b` holds, else 0.
pub open spec fn flag_if(b: bool, mask: u8) -> u8 {
    if b {
        mask
    } else {
        0
    }
}

/// S, X, Y copied from a result byte, and Z set when it is zero.
pub open spec fn sz_xy(z: u8) -> u8 {
    (z & (FLAG_S | FLAG_X | FLAG_Y)) | flag_if(z == 0, FLAG_Z)
}

/// x + y + c, modulo 256.
pub open spec fn add8_res(x: u8, y: u8, c: u8) -> u8 {
    ((x + y + c) % 256) as u8
}

/// Flags of ADD/ADC: C is the carry out of bit 7, H the carry out of bit 3,
/// P/V the two's-complement overflow, N = 0.
pub open spec fn add8_flags(x: u8, y: u8, c: u8) -> u8 {
    let s = signed8(x) + signed8(y) + c;
    sz_xy(add8_res(x, y, c)) | flag_if(x + y + c > 255, FLAG_C) | flag_if(
        s < -128 || s > 127,
        FLAG_PV,
    ) | flag_if((x % 16) + (y % 16) + c > 15, FLAG_H)
}

/// x - y - c, modulo 256.
pub open spec fn sub8_res(x: u8, y: u8, c: u8) -> u8 {
    ((x - y - c) % 256) as u8
}

/// Flags of SUB/SBC/NEG: C is the borrow out of bit 7, H the borrow out of
/// bit 3, P/V the two's-complement overflow, N = 1.
pub open spec fn sub8_flags(x: u8, y: u8, c: u8) -> u8 {
    let s = signed8(x) - signed8(y) - c;
    sz_xy(sub8_res(x, y, c)) | flag_if(x < y + c, FLAG_C) | FLAG_N | flag_if(
        s < -128 || s > 127,
        FLAG_PV,
    ) | flag_if((x % 16) < (y % 16) + c, FLAG_H)
}

/// Flags of CP: those of the discarded subtraction, except that X and Y
/// copy the operand.
pub open spec fn cp_flags(x: u8, y: u8) -> u8 {
    (sub8_flags(x, y, 0) & !(FLAG_X | FLAG_Y)) | (y & (FLAG_X | FLAG_Y))
}

/// Flags of INC: C kept from `f`, H when the low digit carries, P/V when
/// 0x7F becomes 0x80, N = 0.
pub open spec fn inc8_flags(x: u8, f: u8) -> u8 {
    (f & FLAG_C) | sz_xy(add8_res(x, 1, 0)) | flag_if(x == 0x7F, FLAG_PV) | flag_if(
        x % 16 == 15,
        FLAG_H,
    )
}

/// Flags of DEC: C kept from `f`, H when the low digit borrows, P/V when
/// 0x80 becomes 0x7F, N = 1.
pub open spec fn dec8_flags(x: u8, f: u8) -> u8 {
    (f & FLAG_C) | sz_xy(sub8_res(x, 1, 0)) | FLAG_N | flag_if(x == 0x80, FLAG_PV) | flag_if(
        x % 16 == 0,
        FLAG_H,
    )
}

/// x + y + c, modulo 65536.
pub open spec fn add16_res(x: u16, y: u16, c: u8) -> u16 {
    ((x + y + c) % 0x10000) as u16
}

/// x - y - c, modulo 65536.
pub open spec fn sub16_res(x: u16, y: u16, c: u8) -> u16 {
    ((x - y - c) % 0x10000) as u16
}

/// Flags of ADC HL,rr: S, X, Y from the high byte, Z for a zero word, H the
/// carry out of bit 11, P/V the 16-bit overflow, C the carry out of bit 15.
pub open spec fn add16_flags(x: u16, y: u16, c: u8) -> u8 {
    let r = add16_res(x, y, c);
    let s = signed16(x) + signed16(y) + c;
    (hi(r) & (FLAG_S | FLAG_X | FLAG_Y)) | flag_if(r == 0, FLAG_Z) | flag_if(
        (x % 4096) + (y % 4096) + c > 4095,
        FLAG_H,
    ) | flag_if(s < -32768 || s > 32767, FLAG_PV) | flag_if(x + y + c > 0xFFFF, FLAG_C)
}

/// Flags of SBC HL,rr: as for ADC HL,rr with borrows, and N = 1.
pub open spec fn sub16_flags(x: u16, y: u16, c: u8) -> u8 {
    let r = sub16_res(x, y, c);
    let s = signed16(x) - signed16(y) - c;
    (hi(r) & (FLAG_S | FLAG_X | FLAG_Y)) | flag_if(r == 0, FLAG_Z) | flag_if(
        (x % 4096) < (y % 4096) + c,
        FLAG_H,
    ) | flag_if(s < -32768 || s > 32767, FLAG_PV) | flag_if(x < y + c, FLAG_C) | FLAG_N
}

/// Flags of ADD HL,rr (and ADD IX/IY,rr): S, Z, P/V kept from `f`, X and Y
/// from the high byte of the sum, H the carry out of bit 11, C out of bit 15.
pub open spec fn add16_keep_flags(x: u16, y: u16, f: u8) -> u8 {
    let r = add16_res(x, y, 0);
    (f & (FLAG_S | FLAG_Z | FLAG_PV)) | (hi(r) & (FLAG_X | FLAG_Y)) | flag_if(
        (x % 4096) + (y % 4096) > 4095,
        FLAG_H,
    ) | flag_if(x + y > 0xFFFF, FLAG_C)
}

/// New A and F of the eight-bit ALU group `group` (ADD ADC SUB SBC AND XOR
/// OR CP) applied to A, F and the operand `v`.
pub open spec fn alu_spec(group: u8, a: u8, f: u8, v: u8) -> (u8, u8) {
    let c = f & 1;
    if group == 0 {
        (add8_res(a, v, 0), add8_flags(a, v, 0))
    } else if group == 1 {
        (add8_res(a, v, c), add8_flags(a, v, c))
    } else if group == 2 {
        (sub8_res(a, v, 0), sub8_flags(a, v, 0))
    } else if group == 3 {
        (sub8_res(a, v, c), sub8_flags(a, v, c))
    } else if group == 4 {
        (a & v, szp_spec(a & v) | FLAG_H)
    } else if group == 5 {
        (a ^ v, szp_spec(a ^ v))
    } else if group == 6 {
        (a | v, szp_spec(a | v))
    } else {
        (a, cp_flags(a, v))
    }
}

pub open spec fn alu_m(m: Machine, group: u8, v: u8) -> Machine {
    let r = alu_spec(group, m.st.a, m.st.f, v);
    with_st(m, CpuState { a: r.0, f: r.1, ..m.st })
}

pub open spec fn with_f(m: Machine, f: u8) -> Machine {
    with_st(m, CpuState { f, ..m.st })
}

// ---------------------------------------------------------------- lemmas

pub proof fn lemma_sz_xy(z: u8)
    by (bit_vector)
    ensures
        (((z & (FLAG_S | FLAG_X | FLAG_Y)) | (if z == 0 {
            FLAG_Z
        } else {
            0
        }) | (if ((((z & 1) as int + ((z >> 1u8) & 1) as int + ((z >> 2u8) & 1) as int + ((z
            >> 3u8) & 1) as int + ((z >> 4u8) & 1) as int + ((z >> 5u8) & 1) as int + ((z >> 6u8)
            & 1) as int + ((z >> 7u8) & 1) as int) % 2) == 0) {
            FLAG_PV
        } else {
            0
        })) & !FLAG_PV) == ((z & (FLAG_S | FLAG_X | FLAG_Y)) | (if z == 0 {
            FLAG_Z
        } else {
            0
        })),
{
}

proof fn lemma_add8_bits(x: u8, y: u8, c: u8, wide: u16, z: u8)
    by (bit_vector)
    requires
        c <= 1,
        wide == (x as u16) + (y as u16) + (c as u16),
        z == wide as u8,
    ensures
        z == ((x + y + c) % 256) as u8,
        ((wide >> 8u16) as u8 & 1) == (if x + y + c > 255 {
            1u8
        } else {
            0u8
        }),
        ((x ^ y ^ z) & 0x10) == (if (x % 16) + (y % 16) + c > 15 {
            0x10u8
        } else {
            0u8
        }),
        (((x ^ y ^ 0xFF) & (x ^ z) & 0x80) >> 5u8) == (if (x < 128) == (y < 128) && (z < 128)
            != (x < 128) {
            4u8
        } else {
            0u8
        }),
{
}

proof fn lemma_sub8_bits(x: u8, y: u8, c: u8, wide: u16, z: u8)
    by (bit_vector)
    requires
        c <= 1,
        x >= y + c ==> wide == x - y - c,
        x < y + c ==> wide == x - y - c + 0x10000,
        z == wide as u8,
    ensures
        x >= y + c ==> z == x - y - c,
        x < y + c ==> z == x - y - c + 256,
        ((wide >> 8u16) as u8 & 1) == (if x < y + c {
            1u8
        } else {
            0u8
        }),
        ((x ^ y ^ z) & 0x10) == (if (x % 16) < (y % 16) + c {
            0x10u8
        } else {
            0u8
        }),
        (((x ^ y) & (x ^ z) & 0x80) >> 5u8) == (if (x < 128) != (y < 128) && (z < 128) != (x
            < 128) {
            4u8
        } else {
            0u8
        }),
{
}

proof fn lemma_inc_dec_bits(x: u8)
    by (bit_vector)
    ensures
        (x == 255 ==> ((x + 1) - 256) as u8 == 0) && (x < 255 ==> ((x + 1) as u8) as int == x + 1),
        ((if x == 255 {
            ((x + 1 - 256) as u8)
        } else {
            (x + 1) as u8
        }) & 0x0F == 0) == (x % 16 == 15),
        ((if x == 0 {
            ((x - 1 + 256) as u8)
        } else {
            (x - 1) as u8
        }) & 0x0F == 0x0F) == (x % 16 == 0),
{
}

proof fn lemma_add16_bits(x: u16, y: u16, c: u8, wide: u32, r: u16)
    by (bit_vector)
    requires
        c <= 1,
        wide == (x as u32) + (y as u32) + (c as u32),
        r == wide as u16,
    ensures
        r == ((x + y + c) % 0x10000) as u16,
        ((wide >> 16u32) as u8 & 1) == (if x + y + c > 0xFFFF {
            1u8
        } else {
            0u8
        }),
        (((x ^ y ^ r) >> 8u16) as u8 & 0x10) == (if (x % 4096) + (y % 4096) + c > 4095 {
            0x10u8
        } else {
            0u8
        }),
        ((((x ^ y ^ 0xFFFF) & (x ^ r)) >> 13u16) as u8 & 4) == (if (x < 0x8000) == (y < 0x8000)
            && (r < 0x8000) != (x < 0x8000) {
            4u8
        } else {
            0u8
        }),
{
}

proof fn lemma_sub16_bits(x: u16, y: u16, c: u8, wide: u32, r: u16)
    by (bit_vector)
    requires
        c <= 1,
        x >= y + c ==> wide == x - y - c,
        x < y + c ==> wide == x - y - c + 0x1_0000_0000,
        r == wide as u16,
    ensures
        x >= y + c ==> r == x - y - c,
        x < y + c ==> r == x - y - c + 0x10000,
        ((wide >> 16u32) as u8 & 1) == (if x < y + c {
            1u8
        } else {
            0u8
        }),
        (((x ^ y ^ r) >> 8u16) as u8 & 0x10) == (if (x % 4096) < (y % 4096) + c {
            0x10u8
        } else {
            0u8
        }),
        ((((x ^ y) & (x ^ r)) >> 13u16) as u8 & 4) == (if (x < 0x8000) != (y < 0x8000) && (r
            < 0x8000) != (x < 0x8000) {
            4u8
        } else {
            0u8
        }),
{
}

proof fn lemma_flag_bits(z: u8, zf: u8, c1: u8, p: u8, h: u8, n: u8, y: u8)
    by (bit_vector)
    requires
        zf == 0 || zf == FLAG_Z,
        c1 <= 1,
        p == 0 || p == FLAG_PV,
        h == 0 || h == FLAG_H,
    ensures
        ({
            let g = ((z & (FLAG_S | FLAG_X | FLAG_Y)) | zf) | c1 | p | h;
            &&& g & FLAG_C == c1
            &&& g & FLAG_H == h
            &&& g & FLAG_N == 0
            &&& g & FLAG_Z == zf
        }),
        ((n & FLAG_N) | (((z & (FLAG_S | FLAG_X | FLAG_Y)) | zf) | p) | ((z ^ y) & FLAG_H) | c1) & FLAG_C == c1,
{
}

proof fn lemma_digits(t: int, u: int)
    requires
        0 <= u <= 9,
        0 <= t <= 9,
    ensures
        (16 * t + u) / 16 == t,
        (16 * t + u) % 16 == u,
        ((10 * t + u) % 100) / 10 == t,
        (10 * t + u) % 10 == u,
        ((10 * (t + 10) + u) % 100) / 10 == t,
        (10 * (t + 10) + u) % 10 == u,
{
}

proof fn lemma_bcd_add_arith(hh: int, l: int, c: bool, hf: bool)
    requires
        0 <= hh <= 18,
        0 <= l <= 18,
        c == (16 * hh + l > 255),
        hf == (l > 15),
    ensures
        ({
            let z = (16 * hh + l) % 256;
            let high = c || z > 0x99;
            let low = hf || z % 16 > 9;
            let corr: int = (if high { 0x60int } else { 0 }) + (if low { 6int } else { 0 });
            let r = (z + corr) % 256;
            let dec = 10 * hh + l;
            &&& r / 16 == (dec % 100) / 10
            &&& r % 16 == dec % 10
            &&& high == (dec >= 100)
        }),
{
    let s = 16 * hh + l;
    let z = s % 256;
    if s >= 256 {
        assert(z == s - 256);
    } else {
        assert(z == s);
    }
    if l <= 9 {
        if hh <= 9 {
            assert(z % 16 == l);
            lemma_digits(hh, l);
        } else if hh <= 15 {
            assert(z % 16 == l);
            assert((z + 0x60) % 256 == 16 * (hh - 10) + l);
            lemma_digits(hh - 10, l);
        } else {
            assert(z == 16 * (hh - 16) + l);
            assert(z % 16 == l);
            assert((z + 0x60) % 256 == 16 * (hh - 10) + l);
            lemma_digits(hh - 10, l);
        }
    } else if l <= 15 {
        assert(z % 16 == l);
        if hh <= 8 {
            assert((z + 6) % 256 == 16 * (hh + 1) + (l - 10));
            lemma_digits(hh + 1, l - 10);
            assert(10 * hh + l == 10 * (hh + 1) + (l - 10));
        } else if hh <= 15 {
            assert((z + 0x66) % 256 == 16 * (hh - 9) + (l - 10));
            lemma_digits(hh - 9, l - 10);
            assert(10 * hh + l == 10 * (hh - 9 + 10) + (l - 10));
        } else {
            assert(z == 16 * (hh - 16) + l);
            assert((z + 0x66) % 256 == 16 * (hh - 9) + (l - 10));
            lemma_digits(hh - 9, l - 10);
            assert(10 * hh + l == 10 * (hh - 9 + 10) + (l - 10));
        }
    } else {
        if hh <= 8 {
            assert(z == 16 * (hh + 1) + (l - 16));
            assert(z % 16 == l - 16);
            assert((z + 6) % 256 == 16 * (hh + 1) + (l - 10));
            lemma_digits(hh + 1, l - 10);
            assert(10 * hh + l == 10 * (hh + 1) + (l - 10));
        } else if hh <= 14 {
            assert(z == 16 * (hh + 1) + (l - 16));
            assert(z % 16 == l - 16);
            assert((z + 0x66) % 256 == 16 * (hh - 9) + (l - 10));
            lemma_digits(hh - 9, l - 10);
            assert(10 * hh + l == 10 * (hh - 9 + 10) + (l - 10));
        } else {
            assert(z == 16 * (hh - 15) + (l - 16));
            assert(z % 16 == l - 16);
            assert((z + 0x66) % 256 == 16 * (hh - 9) + (l - 10));
            lemma_digits(hh - 9, l - 10);
            assert(10 * hh + l == 10 * (hh - 9 + 10) + (l - 10));
        }
    }
}

/// DAA after ADD A,v of two packed BCD bytes gives the packed BCD of their
/// decimal sum modulo 100, and sets C exactly when that sum reaches 100.
pub proof fn lemma_daa_after_add(a: u8, f: u8, v: u8)
    requires
        a / 16 <= 9,
        a % 16 <= 9,
        v / 16 <= 9,
        v % 16 <= 9,
    ensures
        ({
            let added = alu_spec(0, a, f, v);
            let r = daa_spec(added.0, added.1);
            let dec = (a as int / 16) * 10 + a as int % 16 + (v as int / 16) * 10 + v as int % 16;
            &&& r.0 as int / 16 == (dec % 100) / 10
            &&& r.0 as int % 16 == dec % 10
            &&& (r.1 & FLAG_C == FLAG_C) == (dec >= 100)
        }),
{
    let z = add8_res(a, v, 0);
    let zf = flag_if(z == 0, FLAG_Z);
    let c1 = flag_if(a + v > 255, FLAG_C);
    let sv = signed8(a) + signed8(v);
    let p = flag_if(sv < -128 || sv > 127, FLAG_PV);
    let h = flag_if((a % 16) + (v % 16) > 15, FLAG_H);
    lemma_flag_bits(z, zf, c1, p, h, 0, 0);
    let g = add8_flags(a, v, 0);
    assert(g == ((z & (FLAG_S | FLAG_X | FLAG_Y)) | zf) | c1 | p | h);
    let hh = a as int / 16 + v as int / 16;
    let l = a as int % 16 + v as int % 16;
    assert(a as int + v as int == 16 * hh + l);
    lemma_bcd_add_arith(hh, l, a + v > 255, (a % 16) + (v % 16) > 15);
    assert(z as int == (16 * hh + l) % 256);
    assert((g & FLAG_C != 0) == (a + v > 255));
    assert((g & FLAG_H != 0) == ((a % 16) + (v % 16) > 15));
    assert(g & FLAG_N == 0);
    let r = daa_spec(z, g);
    assert((a as int / 16) * 10 + a as int % 16 + (v as int / 16) * 10 + v as int % 16 == 10 * hh + l);
    let high = g & FLAG_C != 0 || z > 0x99;
    let zr = if r.0 == 0 { FLAG_Z } else { 0u8 };
    let pr = if crate::flags::even_parity(r.0) { FLAG_PV } else { 0u8 };
    let cf = flag_if(high, FLAG_C);
    lemma_flag_bits(r.0, zr, cf, pr, 0, g, z);
    assert(szp_spec(r.0) == ((r.0 & (FLAG_S | FLAG_X | FLAG_Y)) | zr) | pr);
}

proof fn lemma_sub_logic_flag_bits(z: u8, zf: u8, c1: u8, p: u8, h: u8, y: u8)
    by (bit_vector)
    requires
        zf == 0 || zf == FLAG_Z,
        c1 <= 1,
        p == 0 || p == FLAG_PV,
        h == 0 || h == FLAG_H,
    ensures
        ({
            let g = ((z & (FLAG_S | FLAG_X | FLAG_Y)) | zf) | c1 | FLAG_N | p | h;
            let k = (g & !(FLAG_X | FLAG_Y)) | (y & (FLAG_X | FLAG_Y));
            let w = ((z & (FLAG_S | FLAG_X | FLAG_Y)) | zf) | p;
            &&& g & FLAG_C == c1
            &&& g & FLAG_Z == zf
            &&& k & FLAG_C == c1
            &&& k & FLAG_Z == zf
            &&& (w | FLAG_H) & (FLAG_C | FLAG_H) == FLAG_H
            &&& w & (FLAG_C | FLAG_H) == 0
            &&& (w | FLAG_H) & FLAG_Z == zf
            &&& w & FLAG_Z == zf
        }),
{
}

proof fn lemma_add_flag_parts(a: u8, v: u8, cc: u8)
    requires
        cc <= 1,
    ensures
        (add8_flags(a, v, cc) & FLAG_C == FLAG_C) == (a + v + cc > 255),
        (add8_flags(a, v, cc) & FLAG_Z == FLAG_Z) == (add8_res(a, v, cc) == 0),
{
    let z = add8_res(a, v, cc);
    let zf = flag_if(z == 0, FLAG_Z);
    let sv = signed8(a) + signed8(v) + cc;
    let p = flag_if(sv < -128 || sv > 127, FLAG_PV);
    let h = flag_if((a % 16) + (v % 16) + cc > 15, FLAG_H);
    let c1 = flag_if(a + v + cc > 255, FLAG_C);
    lemma_flag_bits(z, zf, c1, p, h, 0, 0);
}

proof fn lemma_sub_flag_parts(a: u8, v: u8, cc: u8)
    requires
        cc <= 1,
    ensures
        (sub8_flags(a, v, cc) & FLAG_C == FLAG_C) == (a < v + cc),
        (sub8_flags(a, v, cc) & FLAG_Z == FLAG_Z) == (sub8_res(a, v, cc) == 0),
        cc == 0 ==> (cp_flags(a, v) & FLAG_C == FLAG_C) == (a < v),
        cc == 0 ==> (cp_flags(a, v) & FLAG_Z == FLAG_Z) == (sub8_res(a, v, 0) == 0),
{
    let z = sub8_res(a, v, cc);
    let zf = flag_if(z == 0, FLAG_Z);
    let sv = signed8(a) - signed8(v) - cc;
    let p = flag_if(sv < -128 || sv > 127, FLAG_PV);
    let h = flag_if((a % 16) < (v % 16) + cc, FLAG_H);
    let c1 = flag_if(a < v + cc, FLAG_C);
    lemma_sub_logic_flag_bits(z, zf, c1, p, h, v);
}

proof fn lemma_logic_flag_parts(r: u8)
    ensures
        (szp_spec(r) | FLAG_H) & (FLAG_C | FLAG_H) == FLAG_H,
        szp_spec(r) & (FLAG_C | FLAG_H) == 0,
        ((szp_spec(r) | FLAG_H) & FLAG_Z == FLAG_Z) == (r == 0),
        (szp_spec(r) & FLAG_Z == FLAG_Z) == (r == 0),
{
    let zf: u8 = if r == 0 { FLAG_Z } else { 0 };
    let p: u8 = if crate::flags::even_parity(r) { FLAG_PV } else { 0 };
    assert(szp_spec(r) == ((r & (FLAG_S | FLAG_X | FLAG_Y)) | zf) | p);
    lemma_sub_logic_flag_bits(r, zf, 0, p, 0, 0);
}

/// The eight ALU operations on A and the operand `v`, with carry-in `c`
/// the C flag: ADD gives `(A + v) % 256` and ADC `(A + v + c) % 256`, C set
/// exactly on a carry out; SUB gives `(A - v) mod 256` and SBC
/// `(A - v - c) mod 256`, C set exactly on a borrow; AND, XOR and OR give the
/// bitwise results with C clear and H set for AND only; CP keeps A, sets Z
/// exactly when A equals `v` and C exactly when A is below `v`. Z is set
/// exactly when the result is zero.
pub proof fn lemma_alu_groups(a: u8, f: u8, v: u8)
    ensures
        ({
            let c = (f & 1) as int;
            &&& alu_spec(0, a, f, v).0 as int == (a + v) % 256
            &&& (alu_spec(0, a, f, v).1 & FLAG_C == FLAG_C) == (a + v > 255)
            &&& alu_spec(1, a, f, v).0 as int == (a + v + c) % 256
            &&& (alu_spec(1, a, f, v).1 & FLAG_C == FLAG_C) == (a + v + c > 255)
            &&& alu_spec(2, a, f, v).0 as int == (a - v) % 256
            &&& (alu_spec(2, a, f, v).1 & FLAG_C == FLAG_C) == (a < v)
            &&& alu_spec(3, a, f, v).0 as int == (a - v - c) % 256
            &&& (alu_spec(3, a, f, v).1 & FLAG_C == FLAG_C) == (a < v + c)
            &&& alu_spec(4, a, f, v).0 == a & v
            &&& alu_spec(5, a, f, v).0 == a ^ v
            &&& alu_spec(6, a, f, v).0 == a | v
            &&& alu_spec(4, a, f, v).1 & (FLAG_C | FLAG_H) == FLAG_H
            &&& alu_spec(5, a, f, v).1 & (FLAG_C | FLAG_H) == 0
            &&& alu_spec(6, a, f, v).1 & (FLAG_C | FLAG_H) == 0
            &&& alu_spec(7, a, f, v).0 == a
            &&& (alu_spec(7, a, f, v).1 & FLAG_Z == FLAG_Z) == (a == v)
            &&& (alu_spec(7, a, f, v).1 & FLAG_C == FLAG_C) == (a < v)
            &&& forall|g: u8| g < 7 ==> ((#[trigger] alu_spec(g, a, f, v).1 & FLAG_Z == FLAG_Z) == (alu_spec(g, a, f, v).0 == 0))
        }),
{
    let c = f & 1;
    lemma_add_flag_parts(a, v, 0);
    lemma_add_flag_parts(a, v, c);
    lemma_sub_flag_parts(a, v, 0);
    lemma_sub_flag_parts(a, v, c);
    lemma_logic_flag_parts(a & v);
    lemma_logic_flag_parts(a ^ v);
    lemma_logic_flag_parts(a | v);
}

proof fn lemma_misc_flag_bits(f: u8, x: u8, hc: u8, zf: u8, p: u8, h: u8, c1: u8)
    by (bit_vector)
    requires
        hc == FLAG_C || hc == FLAG_H,
        zf == 0 || zf == FLAG_Z,
        p == 0 || p == FLAG_PV,
        h == 0 || h == FLAG_H,
        c1 == 0 || c1 == FLAG_C,
    ensures
        ({
            let k = (f & (FLAG_S | FLAG_Z | FLAG_PV | FLAG_C)) | FLAG_H | FLAG_N | (x & (FLAG_X | FLAG_Y));
            &&& k & FLAG_C == f & FLAG_C
            &&& k & (FLAG_H | FLAG_N) == FLAG_H | FLAG_N
        }),
        ({
            let k = (f & (FLAG_S | FLAG_Z | FLAG_PV)) | (x & (FLAG_X | FLAG_Y)) | hc;
            &&& hc == FLAG_C ==> k & FLAG_C == FLAG_C && k & FLAG_H == 0
            &&& hc == FLAG_H ==> k & FLAG_C == 0 && k & FLAG_H == FLAG_H
            &&& k & FLAG_N == 0
        }),
        ({
            let s = (x & (FLAG_S | FLAG_X | FLAG_Y)) | zf;
            &&& ((f & FLAG_C) | s | p | h) & FLAG_C == f & FLAG_C
            &&& ((f & FLAG_C) | s | FLAG_N | p | h) & FLAG_C == f & FLAG_C
            &&& ((f & FLAG_C) | s | p | h) & FLAG_Z == zf
            &&& ((f & FLAG_C) | s | FLAG_N | p | h) & FLAG_Z == zf
        }),
        ({
            let k = (x & (FLAG_S | FLAG_X | FLAG_Y)) | zf | h | p | c1;
            &&& k & FLAG_C == c1
            &&& k & FLAG_Z == zf
            &&& (k | FLAG_N) & FLAG_C == c1
            &&& (k | FLAG_N) & FLAG_Z == zf
        }),
{
}

/// The remaining arithmetic instructions on registers. NEG gives
/// `(0 - A) mod 256` with C set exactly when A was not zero. CPL gives
/// `255 - A`, sets H and N and keeps C. SCF sets C and clears H; CCF
/// complements C and puts the old C in H; both clear N. INC r and DEC r move
/// r by one modulo 256, keep C, and set Z exactly when the result is zero.
pub proof fn lemma_register_arith(m: Machine, opcode: u8, prefixed: bool)
    requires
        (opcode >> 3u8) & 7 != 6,
    ensures
        ({
            let a = m.st.a as int;
            let ng = sem_neg(m).0.st;
            let cp = sem_cpl(m).0.st;
            let scf = sem_scf_ccf(m, 0x37, prefixed).0.st;
            let ccf = sem_scf_ccf(m, 0x3F, prefixed).0.st;
            let dest = (opcode >> 3u8) & 7;
            let x = reg(m.st, dest) as int;
            let inc = sem_inc_r(m, opcode).0.st;
            let dec = sem_dec_r(m, opcode).0.st;
            &&& ng.a as int == (0 - a) % 256
            &&& (ng.f & FLAG_C == FLAG_C) == (a != 0)
            &&& cp.a as int == 255 - a
            &&& cp.f & FLAG_C == m.st.f & FLAG_C
            &&& cp.f & (FLAG_H | FLAG_N) == FLAG_H | FLAG_N
            &&& scf.f & FLAG_C == FLAG_C && scf.f & FLAG_H == 0 && scf.f & FLAG_N == 0
            &&& (ccf.f & FLAG_C == FLAG_C) == (m.st.f & FLAG_C == 0)
            &&& (ccf.f & FLAG_H == FLAG_H) == (m.st.f & FLAG_C != 0)
            &&& ccf.f & FLAG_N == 0
            &&& reg(inc, dest) as int == (x + 1) % 256
            &&& reg(dec, dest) as int == (x - 1) % 256
            &&& inc.f & FLAG_C == m.st.f & FLAG_C
            &&& dec.f & FLAG_C == m.st.f & FLAG_C
            &&& (inc.f & FLAG_Z == FLAG_Z) == (reg(inc, dest) == 0)
            &&& (dec.f & FLAG_Z == FLAG_Z) == (reg(dec, dest) == 0)
        }),
{
    let f = m.st.f;
    let a = m.st.a;
    lemma_sub_flag_parts(0, a, 0);
    let na = a ^ 0xFF;
    assert(na as int == 255 - a as int) by (bit_vector)
        requires na == a ^ 0xFF,;
    lemma_misc_flag_bits(f, na, FLAG_C, 0, 0, 0, 0);
    let seen = if m.st.q != 0 && !prefixed { 0 } else { f };
    let hcc = if f & FLAG_C != 0 { FLAG_H } else { FLAG_C };
    lemma_misc_flag_bits(f, seen | a, hcc, 0, 0, 0, 0);
    lemma_misc_flag_bits(f, seen | a, FLAG_C, 0, 0, 0, 0);
    let dest = (opcode >> 3u8) & 7;
    let x = reg(m.st, dest);
    let zi = add8_res(x, 1, 0);
    let zd = sub8_res(x, 1, 0);
    let zfi = flag_if(zi == 0, FLAG_Z);
    let zfd = flag_if(zd == 0, FLAG_Z);
    lemma_misc_flag_bits(f, zi, FLAG_C, zfi, flag_if(x == 0x7F, FLAG_PV), flag_if(x % 16 == 15, FLAG_H), 0);
    lemma_misc_flag_bits(f, zd, FLAG_C, zfd, flag_if(x == 0x80, FLAG_PV), flag_if(x % 16 == 0, FLAG_H), 0);
    assert(reg(crate::processor::set_reg(m.st, dest, zi), dest) == zi);
    assert(reg(crate::processor::set_reg(m.st, dest, zd), dest) == zd);
    assert(reg(CpuState { f: inc8_flags(x, f), ..crate::processor::set_reg(m.st, dest, zi) }, dest) == zi);
    assert(reg(CpuState { f: dec8_flags(x, f), ..crate::processor::set_reg(m.st, dest, zd) }, dest) == zd);
}

/// The 16-bit arithmetic on HL and the register pairs (by bits 4-5 of the
/// opcode: BC, DE, HL, SP). ADD HL,rr gives `(HL + rr) % 65536`; ADC HL,rr
/// `(HL + rr + c) % 65536` and SBC HL,rr `(HL - rr - c) mod 65536` for c the
/// C flag; each sets C exactly on a carry or borrow out of bit 15, and ADC
/// and SBC set Z exactly when the result is zero. INC rr and DEC rr move the
/// pair by one modulo 65536.
proof fn lemma_add_hl_part(m: Machine, opcode: u8)
    ensures
        ({
            let x = hl(m.st) as int;
            let y = pair(m.st, (opcode >> 4u8) & 3) as int;
            let ad = sem_add_hl_rr(m, opcode).0.st;
            &&& hl(ad) as int == (x + y) % 65536
            &&& (ad.f & FLAG_C == FLAG_C) == (x + y > 0xFFFF)
        }),
{
    let x = hl(m.st);
    let y = pair(m.st, (opcode >> 4u8) & 3);
    let f = m.st.f;
    let ra = add16_res(x, y, 0);
    crate::processor::lemma_word(hi(ra), lo(ra), ra);
    let h = flag_if((x % 4096) + (y % 4096) > 4095, FLAG_H);
    let cc = flag_if(x + y > 0xFFFF, FLAG_C);
    crate::index::lemma_keep_flags_carry(f, hi(ra), h, cc);
    assert(add16_keep_flags(x, y, f) == (f & (FLAG_S | FLAG_Z | FLAG_PV)) | (hi(ra) & (FLAG_X | FLAG_Y)) | h | cc);
}

proof fn lemma_adc_sbc_part(m: Machine, opcode: u8, sub: bool)
    ensures
        ({
            let x = hl(m.st) as int;
            let y = pair(m.st, (opcode >> 4u8) & 3) as int;
            let c = (m.st.f & 1) as int;
            let o = sem_adc_sbc_hl_rr(m, opcode, sub).0.st;
            &&& !sub ==> hl(o) as int == (x + y + c) % 65536
            &&& !sub ==> (o.f & FLAG_C == FLAG_C) == (x + y + c > 0xFFFF)
            &&& sub ==> hl(o) as int == (x - y - c) % 65536
            &&& sub ==> (o.f & FLAG_C == FLAG_C) == (x < y + c)
            &&& (o.f & FLAG_Z == FLAG_Z) == (hl(o) == 0)
        }),
{
    let x = hl(m.st);
    let y = pair(m.st, (opcode >> 4u8) & 3);
    let c = m.st.f & 1;
    let f = m.st.f;
    if sub {
        let rs = sub16_res(x, y, c);
        crate::processor::lemma_word(hi(rs), lo(rs), rs);
        let ss = signed16(x) - signed16(y) - c;
        lemma_misc_flag_bits(f, hi(rs), FLAG_C, flag_if(rs == 0, FLAG_Z), flag_if(ss < -32768 || ss > 32767, FLAG_PV),
            flag_if((x % 4096) < (y % 4096) + c, FLAG_H), flag_if(x < y + c, FLAG_C));
    } else {
        let rc = add16_res(x, y, c);
        crate::processor::lemma_word(hi(rc), lo(rc), rc);
        let sa = signed16(x) + signed16(y) + c;
        lemma_misc_flag_bits(f, hi(rc), FLAG_C, flag_if(rc == 0, FLAG_Z), flag_if(sa < -32768 || sa > 32767, FLAG_PV),
            flag_if((x % 4096) + (y % 4096) + c > 4095, FLAG_H), flag_if(x + y + c > 0xFFFF, FLAG_C));
    }
}

proof fn lemma_inc_dec_pair_part(m: Machine, opcode: u8, dec: bool)
    ensures
        ({
            let i = (opcode >> 4u8) & 3;
            let y = pair(m.st, i) as int;
            let o = sem_inc_dec_rr(m, opcode, dec).0.st;
            &&& !dec ==> pair(o, i) as int == (y + 1) % 65536
            &&& dec ==> pair(o, i) as int == (y - 1) % 65536
        }),
{
    let y = pair(m.st, (opcode >> 4u8) & 3);
    let y1 = y.wrapping_add(1);
    let y2 = y.wrapping_sub(1);
    crate::processor::lemma_word(hi(y1), lo(y1), y1);
    crate::processor::lemma_word(hi(y2), lo(y2), y2);
}

pub proof fn lemma_pair_arith(m: Machine, opcode: u8)
    ensures
        ({
            let i = (opcode >> 4u8) & 3;
            let x = hl(m.st) as int;
            let y = pair(m.st, i) as int;
            let c = (m.st.f & 1) as int;
            let ad = sem_add_hl_rr(m, opcode).0.st;
            let ac = sem_adc_sbc_hl_rr(m, opcode, false).0.st;
            let sb = sem_adc_sbc_hl_rr(m, opcode, true).0.st;
            let inc = sem_inc_dec_rr(m, opcode, false).0.st;
            let dec = sem_inc_dec_rr(m, opcode, true).0.st;
            &&& hl(ad) as int == (x + y) % 65536
            &&& (ad.f & FLAG_C == FLAG_C) == (x + y > 0xFFFF)
            &&& hl(ac) as int == (x + y + c) % 65536
            &&& (ac.f & FLAG_C == FLAG_C) == (x + y + c > 0xFFFF)
            &&& (ac.f & FLAG_Z == FLAG_Z) == (hl(ac) == 0)
            &&& hl(sb) as int == (x - y - c) % 65536
            &&& (sb.f & FLAG_C == FLAG_C) == (x < y + c)
            &&& (sb.f & FLAG_Z == FLAG_Z) == (hl(sb) == 0)
            &&& pair(inc, i) as int == (y + 1) % 65536
            &&& pair(dec, i) as int == (y - 1) % 65536
        }),
{
    lemma_add_hl_part(m, opcode);
    lemma_adc_sbc_part(m, opcode, false);
    lemma_adc_sbc_part(m, opcode, true);
    lemma_inc_dec_pair_part(m, opcode, false);
    lemma_inc_dec_pair_part(m, opcode, true);
}

// ---------------------------------------------------------------- primitives

/// ADD/ADC core: the sum and its flags.
pub fn add8(x: u8, y: u8, carry: u8) -> (r: (u8, u8))
    requires
        carry <= 1,
    ensures
        r.0 == add8_res(x, y, carry),
        r.1 == add8_flags(x, y, carry),
{
    let wide: u16 = (x as u16) + (y as u16) + (carry as u16);
    let z = wide as u8;
    proof {
        lemma_add8_bits(x, y, carry, wide, z);
        lemma_sz_xy(z);
    }
    let f = (szp(z) & !FLAG_PV) | ((wide >> 8u16) as u8 & FLAG_C) | (((x ^ y ^ 0xFF) & (x ^ z)
        & 0x80) >> 5u8) | ((x ^ y ^ z) & FLAG_H);
    (z, f)
}

/// SUB/SBC core: the difference and its flags.
pub fn sub8(x: u8, y: u8, carry: u8) -> (r: (u8, u8))
    requires
        carry <= 1,
    ensures
        r.0 == sub8_res(x, y, carry),
        r.1 == sub8_flags(x, y, carry),
{
    let wide: u16 = (x as u16).wrapping_sub(y as u16).wrapping_sub(carry as u16);
    let z = wide as u8;
    proof {
        lemma_sub8_bits(x, y, carry, wide, z);
        lemma_sz_xy(z);
    }
    let f = (szp(z) & !FLAG_PV) | ((wide >> 8u16) as u8 & FLAG_C) | FLAG_N | (((x ^ y) & (x
        ^ z) & 0x80) >> 5u8) | ((x ^ y ^ z) & FLAG_H);
    (z, f)
}

/// ADC HL,rr core.
pub fn add16(x: u16, y: u16, carry: u8) -> (r: (u16, u8))
    requires
        carry <= 1,
    ensures
        r.0 == add16_res(x, y, carry),
        r.1 == add16_flags(x, y, carry),
{
    let wide: u32 = (x as u32) + (y as u32) + (carry as u32);
    let result = wide as u16;
    proof {
        lemma_add16_bits(x, y, carry, wide, result);
    }
    let high = (result >> 8u16) as u8;
    let z = if result == 0 {
        FLAG_Z
    } else {
        0
    };
    let f = (high & (FLAG_S | FLAG_X | FLAG_Y)) | z | (((x ^ y ^ result) >> 8u16) as u8
        & FLAG_H) | ((((x ^ y ^ 0xFFFF) & (x ^ result)) >> 13u16) as u8 & FLAG_PV) | ((wide
        >> 16u32) as u8 & FLAG_C);
    (result, f)
}

/// SBC HL,rr core.
pub fn sub16(x: u16, y: u16, carry: u8) -> (r: (u16, u8))
    requires
        carry <= 1,
    ensures
        r.0 == sub16_res(x, y, carry),
        r.1 == sub16_flags(x, y, carry),
{
    let wide: u32 = (x as u32).wrapping_sub(y as u32).wrapping_sub(carry as u32);
    let result = wide as u16;
    proof {
        lemma_sub16_bits(x, y, carry, wide, result);
    }
    let high = (result >> 8u16) as u8;
    let z = if result == 0 {
        FLAG_Z
    } else {
        0
    };
    let f = (high & (FLAG_S | FLAG_X | FLAG_Y)) | z | (((x ^ y ^ result) >> 8u16) as u8
        & FLAG_H) | ((((x ^ y) & (x ^ result)) >> 13u16) as u8 & FLAG_PV) | ((wide >> 16u32) as u8
        & FLAG_C) | FLAG_N;
    (result, f)
}

/// INC core: the incremented byte and the flags it leaves given old F `f`.
pub fn inc8(x: u8, f: u8) -> (r: (u8, u8))
    ensures
        r.0 == add8_res(x, 1, 0),
        r.1 == inc8_flags(x, f),
{
    let z = x.wrapping_add(1);
    proof {
        lemma_inc_dec_bits(x);
        lemma_sz_xy(z);
    }
    let pv = if z == 0x80 {
        FLAG_PV
    } else {
        0
    };
    let h = if (z & 0x0F) == 0 {
        FLAG_H
    } else {
        0
    };
    let fl = (f & FLAG_C) | (szp(z) & !FLAG_PV) | pv | h;
    (z, fl)
}

/// DEC core.
pub fn dec8(x: u8, f: u8) -> (r: (u8, u8))
    ensures
        r.0 == sub8_res(x, 1, 0),
        r.1 == dec8_flags(x, f),
{
    let z = x.wrapping_sub(1);
    proof {
        lemma_inc_dec_bits(x);
        lemma_sz_xy(z);
    }
    let pv = if z == 0x7F {
        FLAG_PV
    } else {
        0
    };
    let h = if (z & 0x0F) == 0x0F {
        FLAG_H
    } else {
        0
    };
    let fl = (f & FLAG_C) | (szp(z) & !FLAG_PV) | FLAG_N | pv | h;
    (z, fl)
}


/// ADD HL,rr core (also ADD IX/IY,rr): the sum and the flags it leaves
/// given old F `f`.
pub fn add16_keep(x: u16, y: u16, f: u8) -> (r: (u16, u8))
    ensures
        r.0 == add16_res(x, y, 0),
        r.1 == add16_keep_flags(x, y, f),
{
    let wide: u32 = (x as u32) + (y as u32);
    let result = wide as u16;
    proof {
        lemma_add16_bits(x, y, 0, wide, result);
    }
    let fl = (f & (FLAG_S | FLAG_Z | FLAG_PV)) | ((result >> 8u16) as u8 & (FLAG_X | FLAG_Y))
        | (((x ^ y ^ result) >> 8u16) as u8 & FLAG_H) | ((wide >> 16u32) as u8 & FLAG_C);
    (result, fl)
}

/// New A and F of the eight-bit ALU group applied to `a`, `f` and `v`.
pub fn alu(group: u8, a: u8, f: u8, v: u8) -> (r: (u8, u8))
    ensures
        r == alu_spec(group, a, f, v),
{
    if group == 0 {
        add8(a, v, 0)
    } else if group == 1 {
        add8(a, v, f & 1)
    } else if group == 2 {
        sub8(a, v, 0)
    } else if group == 3 {
        sub8(a, v, f & 1)
    } else if group == 4 {
        let z = a & v;
        (z, szp(z) | FLAG_H)
    } else if group == 5 {
        let z = a ^ v;
        (z, szp(z))
    } else if group == 6 {
        let z = a | v;
        (z, szp(z))
    } else {
        let r = sub8(a, v, 0);
        (a, (r.1 & !(FLAG_X | FLAG_Y)) | (v & (FLAG_X | FLAG_Y)))
    }
}

/// DAA: the correction that makes A a valid BCD result after an ADD or SUB
/// of BCD operands, steered by H, N and C. A tens digit above 9 (A > 0x99)
/// or a carry means 0x60; a units digit above 9 or a half carry means 0x06;
/// N says whether to add or subtract the correction.
pub open spec fn daa_spec(a: u8, f: u8) -> (u8, u8) {
    let high = f & FLAG_C != 0 || a > 0x99;
    let low = f & FLAG_H != 0 || a % 16 > 9;
    let corr: int = (if high {
        0x60int
    } else {
        0
    }) + (if low {
        6int
    } else {
        0
    });
    let r = if f & FLAG_N != 0 {
        ((a - corr) % 256) as u8
    } else {
        ((a + corr) % 256) as u8
    };
    (r, (f & FLAG_N) | szp_spec(r) | ((r ^ a) & FLAG_H) | flag_if(high, FLAG_C))
}

proof fn lemma_daa_digit(a: u8)
    by (bit_vector)
    ensures
        (if a >= 0x60 {
            (a - 0x60) as u8
        } else {
            (a - 0x60 + 256) as u8
        }) & 0x0F == a % 16,
        (if a + 0x60 > 255 {
            (a + 0x60 - 256) as u8
        } else {
            (a + 0x60) as u8
        }) & 0x0F == a % 16,
        a & 0x0F == a % 16,
{
}

#[verifier::rlimit(40)]
pub fn daa(a: u8, f: u8) -> (r: (u8, u8))
    ensures
        r == daa_spec(a, f),
{
    let original = a;
    let mut r = a;
    let mut carry = f & FLAG_C;
    proof {
        lemma_daa_digit(a);
    }
    // A tens digit above 9, or a carry out of it, means the BCD result
    // overflowed 99; correct by 0x60 (direction from N) and force C. The
    // second test does the same for the units digit via H and 0x06.
    if f & FLAG_C != 0 || r > 0x99 {
        r = if f & FLAG_N != 0 {
            r.wrapping_sub(0x60)
        } else {
            r.wrapping_add(0x60)
        };
        carry = FLAG_C;
    }
    if f & FLAG_H != 0 || (r & 0x0F) > 0x09 {
        r = if f & FLAG_N != 0 {
            r.wrapping_sub(0x06)
        } else {
            r.wrapping_add(0x06)
        };
    }
    (r, (f & FLAG_N) | szp(r) | ((r ^ original) & FLAG_H) | carry)
}

// ---------------------------------------------------------------- handlers

pub open spec fn sem_alu_r(m: Machine, opcode: u8, rv: Seq<u8>) -> (Machine, u32) {
    let group = (opcode >> 3u8) & 7;
    let src = opcode & 7;
    if src == 6 {
        (q_set(alu_m(logged(m, rd(hl(m.st), rv[0])), group, rv[0])), 7)
    } else {
        (q_set(alu_m(m, group, reg(m.st, src))), 4)
    }
}

pub open spec fn sem_alu_n(m: Machine, opcode: u8, rv: Seq<u8>) -> (Machine, u32) {
    (q_set(alu_m(crate::processor::operand(m, rv[0]), (opcode >> 3u8) & 7, rv[0])), 7)
}

pub open spec fn sem_neg(m: Machine) -> (Machine, u32) {
    let a = m.st.a;
    (q_set(with_st(m, CpuState { a: sub8_res(0, a, 0), f: sub8_flags(0, a, 0), ..m.st })), 8)
}

pub open spec fn sem_inc_r(m: Machine, opcode: u8) -> (Machine, u32) {
    let dest = (opcode >> 3u8) & 7;
    let x = reg(m.st, dest);
    (
        q_set(
            with_st(
                m,
                CpuState { f: inc8_flags(x, m.st.f), ..crate::processor::set_reg(m.st, dest, add8_res(x, 1, 0)) },
            ),
        ),
        4,
    )
}

pub open spec fn sem_dec_r(m: Machine, opcode: u8) -> (Machine, u32) {
    let dest = (opcode >> 3u8) & 7;
    let x = reg(m.st, dest);
    (
        q_set(
            with_st(
                m,
                CpuState { f: dec8_flags(x, m.st.f), ..crate::processor::set_reg(m.st, dest, sub8_res(x, 1, 0)) },
            ),
        ),
        4,
    )
}

/// INC (HL) / DEC (HL): read the byte at HL, write it back changed.
pub open spec fn sem_inc_dec_hl(m: Machine, dec: bool, rv: Seq<u8>) -> (Machine, u32) {
    let addr = hl(m.st);
    let x = rv[0];
    let z = if dec {
        sub8_res(x, 1, 0)
    } else {
        add8_res(x, 1, 0)
    };
    let f = if dec {
        dec8_flags(x, m.st.f)
    } else {
        inc8_flags(x, m.st.f)
    };
    (q_set(with_f(logged(logged(m, rd(addr, x)), wr(addr, z)), f)), 11)
}

pub open spec fn sem_daa(m: Machine) -> (Machine, u32) {
    let r = daa_spec(m.st.a, m.st.f);
    (q_set(with_st(m, CpuState { a: r.0, f: r.1, ..m.st })), 4)
}

/// CPL: A complemented; H and N set; X and Y from the new A; S, Z, P/V, C kept.
pub open spec fn sem_cpl(m: Machine) -> (Machine, u32) {
    let a = m.st.a ^ 0xFF;
    let f = (m.st.f & (FLAG_S | FLAG_Z | FLAG_PV | FLAG_C)) | FLAG_H | FLAG_N | (a & (FLAG_X
        | FLAG_Y));
    (q_set(with_st(m, CpuState { a, f, ..m.st })), 4)
}

/// SCF (0x37) / CCF: C set or complemented, H = 0 for SCF and the old C for
/// CCF, N = 0, S/Z/P/V kept. X and Y are A | F's X/Y, except that F does not
/// contribute when Q shows the previous instruction wrote the flags (a
/// DD/FD prefix in between is an M1 that wrote none).
pub open spec fn sem_scf_ccf(m: Machine, opcode: u8, prefixed: bool) -> (Machine, u32) {
    let f = m.st.f;
    let old_c = f & FLAG_C;
    let seen = if m.st.q != 0 && !prefixed {
        0
    } else {
        f
    };
    let hc = if opcode == 0x37 {
        FLAG_C
    } else if old_c != 0 {
        FLAG_H
    } else {
        FLAG_C
    };
    let nf = (f & (FLAG_S | FLAG_Z | FLAG_PV)) | ((seen | m.st.a) & (FLAG_X | FLAG_Y)) | hc;
    (q_set(with_f(m, nf)), 4)
}

pub open spec fn sem_add_hl_rr(m: Machine, opcode: u8) -> (Machine, u32) {
    let x = hl(m.st);
    let y = pair(m.st, (opcode >> 4u8) & 3);
    let s1 = CpuState { wz: x.wrapping_add(1), f: add16_keep_flags(x, y, m.st.f), ..m.st };
    (q_set(with_st(m, set_pair(s1, 2, add16_res(x, y, 0)))), 11)
}

/// ADC HL,rr (`sub` false) and SBC HL,rr (`sub` true).
pub open spec fn sem_adc_sbc_hl_rr(m: Machine, opcode: u8, sub: bool) -> (Machine, u32) {
    let x = hl(m.st);
    let y = pair(m.st, (opcode >> 4u8) & 3);
    let c = m.st.f & 1;
    let r = if sub {
        sub16_res(x, y, c)
    } else {
        add16_res(x, y, c)
    };
    let f = if sub {
        sub16_flags(x, y, c)
    } else {
        add16_flags(x, y, c)
    };
    (q_set(with_st(m, set_pair(CpuState { wz: x.wrapping_add(1), f, ..m.st }, 2, r))), 15)
}

/// INC rr (`dec` false) / DEC rr: no flags.
pub open spec fn sem_inc_dec_rr(m: Machine, opcode: u8, dec: bool) -> (Machine, u32) {
    let i = (opcode >> 4u8) & 3;
    let v = pair(m.st, i);
    let nv = if dec {
        v.wrapping_sub(1)
    } else {
        v.wrapping_add(1)
    };
    (crate::processor::q_clear(with_st(m, set_pair(m.st, i, nv))), 6)
}

impl<B: Bus> Z80<B> {
    pub fn set_flags(&mut self, f: u8)
        ensures
            host_kept(old(self).bus, final(self).bus),
            final(self).m() == with_f(old(self).m(), f),
            final(self).replies@ == old(self).replies@,
    {
        self.f = crate::flags::Flags::new(f);
    }

    pub fn alu_a(&mut self, group: u8, value: u8)
        ensures
            host_kept(old(self).bus, final(self).bus),
            final(self).m() == alu_m(old(self).m(), group, value),
            final(self).replies@ == old(self).replies@,
    {
        let r = alu(group, self.a, self.f.byte(), value);
        self.a = r.0;
        self.set_flags(r.1);
    }

    /// ADD/ADC/SUB/SBC/AND/XOR/OR/CP A,r -- 8-bit ALU with a register or (HL) operand.
    pub fn op_alu_r(&mut self, opcode: u8) -> (t: u32)
        ensures
            host_kept(old(self).bus, final(self).bus),
            stepped(*old(self), *final(self), t, sem_alu_r(old(self).m(), opcode, new_replies(*old(self), *final(self)))),
    {
        let group = (opcode >> 3u8) & 0x07;
        let src = opcode & 0x07;
        let t_states = if src == 6 {
            let addr = self.hl();
            let v = self.mem_read(addr);
            self.alu_a(group, v);
            7
        } else {
            let v = self.read_reg(src);
            self.alu_a(group, v);
            4
        };
        self.update_q(true);
        t_states
    }

    /// ADD/ADC/SUB/SBC/AND/XOR/OR/CP A,n -- 8-bit ALU with an immediate operand.
    pub fn op_alu_n(&mut self, opcode: u8) -> (t: u32)
        ensures
            host_kept(old(self).bus, final(self).bus),
            stepped(*old(self), *final(self), t, sem_alu_n(old(self).m(), opcode, new_replies(*old(self), *final(self)))),
    {
        let group = (opcode >> 3u8) & 0x07;
        let value = self.read_operand_byte();
        self.alu_a(group, value);
        self.update_q(true);
        7
    }

    /// NEG -- replace A with its two's-complement negation.
    pub fn op_neg(&mut self) -> (t: u32)
        ensures
            host_kept(old(self).bus, final(self).bus),
            stepped(*old(self), *final(self), t, sem_neg(old(self).m())),
    {
        let r = sub8(0, self.a, 0);
        self.a = r.0;
        self.set_flags(r.1);
        self.update_q(true);
        8
    }

    /// INC r
    pub fn op_inc_r(&mut self, opcode: u8) -> (t: u32)
        requires
            (opcode >> 3u8) & 7 != 6,
        ensures
            host_kept(old(self).bus, final(self).bus),
            stepped(*old(self), *final(self), t, sem_inc_r(old(self).m(), opcode)),
    {
        let dest = (opcode >> 3u8) & 0x07;
        let r = inc8(self.read_reg(dest), self.f.byte());
        self.set_flags(r.1);
        self.write_reg(dest, r.0);
        self.update_q(true);
        4
    }

    /// DEC r
    pub fn op_dec_r(&mut self, opcode: u8) -> (t: u32)
        requires
            (opcode >> 3u8) & 7 != 6,
        ensures
            host_kept(old(self).bus, final(self).bus),
            stepped(*old(self), *final(self), t, sem_dec_r(old(self).m(), opcode)),
    {
        let dest = (opcode >> 3u8) & 0x07;
        let r = dec8(self.read_reg(dest), self.f.byte());
        self.set_flags(r.1);
        self.write_reg(dest, r.0);
        self.update_q(true);
        4
    }

    /// INC (HL)
    pub fn op_inc_hl(&mut self) -> (t: u32)
        ensures
            host_kept(old(self).bus, final(self).bus),
            stepped(*old(self), *final(self), t, sem_inc_dec_hl(old(self).m(), false, new_replies(*old(self), *final(self)))),
    {
        let addr = self.hl();
        let value = self.mem_read(addr);
        let r = inc8(value, self.f.byte());
        self.set_flags(r.1);
        self.mem_write(addr, r.0);
        self.update_q(true);
        11
    }

    /// DEC (HL)
    pub fn op_dec_hl(&mut self) -> (t: u32)
        ensures
            host_kept(old(self).bus, final(self).bus),
            stepped(*old(self), *final(self), t, sem_inc_dec_hl(old(self).m(), true, new_replies(*old(self), *final(self)))),
    {
        let addr = self.hl();
        let value = self.mem_read(addr);
        let r = dec8(value, self.f.byte());
        self.set_flags(r.1);
        self.mem_write(addr, r.0);
        self.update_q(true);
        11
    }

    /// DAA -- decimal-adjust A after a BCD ADD/SUB, steered by H, N, and C.
    pub fn op_daa(&mut self) -> (t: u32)
        ensures
            host_kept(old(self).bus, final(self).bus),
            stepped(*old(self), *final(self), t, sem_daa(old(self).m())),
    {
        let r = daa(self.a, self.f.byte());
        self.a = r.0;
        self.set_flags(r.1);
        self.update_q(true);
        4
    }

    /// CPL -- complement A, setting H/N and X/Y from the result.
    pub fn op_cpl(&mut self) -> (t: u32)
        ensures
            host_kept(old(self).bus, final(self).bus),
            stepped(*old(self), *final(self), t, sem_cpl(old(self).m())),
    {
        self.a = self.a ^ 0xFF;
        let f = (self.f.byte() & (FLAG_S | FLAG_Z | FLAG_PV | FLAG_C)) | FLAG_H | FLAG_N | (self.a
            & (FLAG_X | FLAG_Y));
        self.set_flags(f);
        self.update_q(true);
        4
    }

    /// SCF/CCF -- including their Q-sensitive undocumented X/Y behavior.
    pub fn op_scf_ccf(&mut self, opcode: u8, prefixed: bool) -> (t: u32)
        ensures
            host_kept(old(self).bus, final(self).bus),
            stepped(*old(self), *final(self), t, sem_scf_ccf(old(self).m(), opcode, prefixed)),
    {
        // Q holds F only if the previous M1 cycle wrote flags. If it did, F's X/Y
        // are masked and A alone supplies them; otherwise X/Y = (F | A).
        let f = self.f.byte();
        let seen = if self.q != 0 && !prefixed {
            0
        } else {
            f
        };
        let hc = if opcode == 0x37 {
            FLAG_C
        } else if f & FLAG_C != 0 {
            FLAG_H
        } else {
            FLAG_C
        };
        self.set_flags((f & (FLAG_S | FLAG_Z | FLAG_PV)) | ((seen | self.a) & (FLAG_X | FLAG_Y)) | hc);
        self.update_q(true);
        4
    }

    /// ADD HL,rr -- only H, N, C and X/Y change; S/Z/PV are preserved.
    pub fn op_add_hl_rr(&mut self, opcode: u8) -> (t: u32)
        ensures
            host_kept(old(self).bus, final(self).bus),
            stepped(*old(self), *final(self), t, sem_add_hl_rr(old(self).m(), opcode)),
    {
        let pair_index = (opcode >> 4u8) & 0x03;
        let hl = self.hl();
        let value = self.read_pair(pair_index);
        // 16-bit adds run through the address latch: WZ = HL + 1 (the high-byte pass).
        self.wz = hl.wrapping_add(1);
        let r = add16_keep(hl, value, self.f.byte());
        self.set_flags(r.1);
        self.write_pair(2, r.0);
        self.update_q(true);
        11
    }

    /// ADC HL,rr
    pub fn op_adc_hl_rr(&mut self, opcode: u8) -> (t: u32)
        ensures
            host_kept(old(self).bus, final(self).bus),
            stepped(*old(self), *final(self), t, sem_adc_sbc_hl_rr(old(self).m(), opcode, false)),
    {
        let pair_index = (opcode >> 4u8) & 0x03;
        let hl = self.hl();
        self.wz = hl.wrapping_add(1);
        let r = add16(hl, self.read_pair(pair_index), self.f.c());
        self.set_flags(r.1);
        self.write_pair(2, r.0);
        self.update_q(true);
        15
    }

    /// SBC HL,rr
    pub fn op_sbc_hl_rr(&mut self, opcode: u8) -> (t: u32)
        ensures
            host_kept(old(self).bus, final(self).bus),
            stepped(*old(self), *final(self), t, sem_adc_sbc_hl_rr(old(self).m(), opcode, true)),
    {
        let pair_index = (opcode >> 4u8) & 0x03;
        let hl = self.hl();
        self.wz = hl.wrapping_add(1);
        let r = sub16(hl, self.read_pair(pair_index), self.f.c());
        self.set_flags(r.1);
        self.write_pair(2, r.0);
        self.update_q(true);
        15
    }

    /// INC rr -- no flags.
    pub fn op_inc_rr(&mut self, opcode: u8) -> (t: u32)
        ensures
            host_kept(old(self).bus, final(self).bus),
            stepped(*old(self), *final(self), t, sem_inc_dec_rr(old(self).m(), opcode, false)),
    {
        let pair_index = (opcode >> 4u8) & 0x03;
        let v = self.read_pair(pair_index).wrapping_add(1);
        self.write_pair(pair_index, v);
        self.update_q(false);
        6
    }

    /// DEC rr -- no flags.
    pub fn op_dec_rr(&mut self, opcode: u8) -> (t: u32)
        ensures
            host_kept(old(self).bus, final(self).bus),
            stepped(*old(self), *final(self), t, sem_inc_dec_rr(old(self).m(), opcode, true)),
    {
        let pair_index = (opcode >> 4u8) & 0x03;
        let v = self.read_pair(pair_index).wrapping_sub(1);
        self.write_pair(pair_index, v);
        self.update_q(false);
        6
    }
}

} // verus!
