//! The Z80 F register, its bit masks, and the flags that depend only on a
//! result byte (sign, zero, the undocumented X/Y copies, and parity).

use vstd::prelude::*;

verus! {

pub const FLAG_S: u8 = 0b1000_0000;
pub const FLAG_Z: u8 = 0b0100_0000;
pub const FLAG_Y: u8 = 0b0010_0000;
pub const FLAG_H: u8 = 0b0001_0000;
pub const FLAG_X: u8 = 0b0000_1000;
pub const FLAG_PV: u8 = 0b0000_0100;
pub const FLAG_N: u8 = 0b0000_0010;
pub const FLAG_C: u8 = 0b0000_0001;

/// Number of one bits in `v`.
pub open spec fn ones(v: u8) -> int {
    (v & 1) as int + ((v >> 1u8) & 1) as int + ((v >> 2u8) & 1) as int + ((v >> 3u8) & 1) as int
        + ((v >> 4u8) & 1) as int + ((v >> 5u8) & 1) as int + ((v >> 6u8) & 1) as int + ((v
        >> 7u8) & 1) as int
}

/// A byte has even parity when it holds an even number of one bits.
pub open spec fn even_parity(v: u8) -> bool {
    ones(v) % 2 == 0
}

/// 1 for even parity, 0 for odd: the value the P/V flag takes as parity.
pub open spec fn parity_bit(v: u8) -> u8 {
    if even_parity(v) {
        1
    } else {
        0
    }
}

/// S, Z, X, Y from a result byte, and P/V as its parity: S is bit 7 of the
/// byte, X and Y are its bits 3 and 5, Z is set for zero.
pub open spec fn szp_spec(v: u8) -> u8 {
    (v & (FLAG_S | FLAG_X | FLAG_Y)) | (if v == 0 {
        FLAG_Z
    } else {
        0
    }) | (if even_parity(v) {
        FLAG_PV
    } else {
        0
    })
}

proof fn lemma_parity_fold(v: u8)
    by (bit_vector)
    ensures
        (((((v ^ (v >> 4u8)) ^ ((v ^ (v >> 4u8)) >> 2u8)) ^ (((v ^ (v >> 4u8)) ^ ((v ^ (v
            >> 4u8)) >> 2u8)) >> 1u8)) & 1) == 0) == ((((v & 1) as int + ((v >> 1u8) & 1) as int
            + ((v >> 2u8) & 1) as int + ((v >> 3u8) & 1) as int + ((v >> 4u8) & 1) as int + ((v
            >> 5u8) & 1) as int + ((v >> 6u8) & 1) as int + ((v >> 7u8) & 1) as int) % 2) == 0),
{
}

/// 1 when `value` has even parity, 0 when odd.
pub fn parity(value: u8) -> (r: u8)
    ensures
        r == parity_bit(value),
{
    let mut p = value;
    p ^= p >> 4u8;
    p ^= p >> 2u8;
    p ^= p >> 1u8;
    proof {
        lemma_parity_fold(value);
    }
    if p & 1 != 0 {
        0
    } else {
        1
    }
}

/// S, Z, X, Y, and P/V as parity for a result byte, ready to OR with the
/// flags that do not depend on the result alone.
pub fn szp(value: u8) -> (r: u8)
    ensures
        r == szp_spec(value),
{
    let z = if value == 0 {
        FLAG_Z
    } else {
        0
    };
    let p = if parity(value) == 1 {
        FLAG_PV
    } else {
        0
    };
    (value & (FLAG_S | FLAG_X | FLAG_Y)) | z | p
}

/// Reading bit `k` after it was written with `v & 1` gives `v & 1`, and the
/// other seven bits are untouched.
pub proof fn lemma_bit_write(b: u8, v: u8, k: u8)
    by (bit_vector)
    requires
        k < 8,
    ensures
        ((((b & !(1u8 << k)) | ((v & 1) << k)) >> k) & 1) == v & 1,
        ((b & !(1u8 << k)) | ((v & 1) << k)) & !(1u8 << k) == b & !(1u8 << k),
{
}

pub broadcast proof fn lemma_and7(x: u8)
    by (bit_vector)
    ensures
        #[trigger] (x & 7) < 8,
{
}

pub broadcast proof fn lemma_and3(x: u8)
    by (bit_vector)
    ensures
        #[trigger] (x & 3) < 4,
{
}

pub broadcast proof fn lemma_and1(x: u8)
    by (bit_vector)
    ensures
        #[trigger] (x & 1) <= 1,
{
}

pub broadcast group group_masks {
    lemma_and7,
    lemma_and3,
    lemma_and1,
}

/// The Z80 F register, including the undocumented X/Y bits.
#[derive(Clone, Copy, Debug)]
pub struct Flags {
    byte: u8,
}

impl View for Flags {
    type V = u8;

    closed spec fn view(&self) -> u8 {
        self.byte
    }
}

impl Flags {
    pub fn new(value: u8) -> (r: Self)
        ensures
            r@ == value,
    {
        Flags { byte: value }
    }

    pub fn byte(self) -> (r: u8)
        ensures
            r == self@,
    {
        self.byte
    }

    pub fn set_byte(&mut self, value: u8)
        ensures
            final(self)@ == value,
    {
        self.byte = value;
    }

    pub fn s(self) -> (r: u8)
        ensures
            r == (self@ >> 7u8) & 1,
    {
        (self.byte >> 7u8) & 1
    }

    pub fn set_s(&mut self, value: u8)
        ensures
            final(self)@ == (old(self)@ & !FLAG_S) | ((value & 1) << 7u8),
    {
        self.byte = (self.byte & !FLAG_S) | ((value & 1) << 7u8);
    }

    pub fn z(self) -> (r: u8)
        ensures
            r == (self@ >> 6u8) & 1,
    {
        (self.byte >> 6u8) & 1
    }

    pub fn set_z(&mut self, value: u8)
        ensures
            final(self)@ == (old(self)@ & !FLAG_Z) | ((value & 1) << 6u8),
    {
        self.byte = (self.byte & !FLAG_Z) | ((value & 1) << 6u8);
    }

    pub fn y(self) -> (r: u8)
        ensures
            r == (self@ >> 5u8) & 1,
    {
        (self.byte >> 5u8) & 1
    }

    pub fn set_y(&mut self, value: u8)
        ensures
            final(self)@ == (old(self)@ & !FLAG_Y) | ((value & 1) << 5u8),
    {
        self.byte = (self.byte & !FLAG_Y) | ((value & 1) << 5u8);
    }

    pub fn h(self) -> (r: u8)
        ensures
            r == (self@ >> 4u8) & 1,
    {
        (self.byte >> 4u8) & 1
    }

    pub fn set_h(&mut self, value: u8)
        ensures
            final(self)@ == (old(self)@ & !FLAG_H) | ((value & 1) << 4u8),
    {
        self.byte = (self.byte & !FLAG_H) | ((value & 1) << 4u8);
    }

    pub fn x(self) -> (r: u8)
        ensures
            r == (self@ >> 3u8) & 1,
    {
        (self.byte >> 3u8) & 1
    }

    pub fn set_x(&mut self, value: u8)
        ensures
            final(self)@ == (old(self)@ & !FLAG_X) | ((value & 1) << 3u8),
    {
        self.byte = (self.byte & !FLAG_X) | ((value & 1) << 3u8);
    }

    pub fn pv(self) -> (r: u8)
        ensures
            r == (self@ >> 2u8) & 1,
    {
        (self.byte >> 2u8) & 1
    }

    pub fn set_pv(&mut self, value: u8)
        ensures
            final(self)@ == (old(self)@ & !FLAG_PV) | ((value & 1) << 2u8),
    {
        self.byte = (self.byte & !FLAG_PV) | ((value & 1) << 2u8);
    }

    pub fn n(self) -> (r: u8)
        ensures
            r == (self@ >> 1u8) & 1,
    {
        (self.byte >> 1u8) & 1
    }

    pub fn set_n(&mut self, value: u8)
        ensures
            final(self)@ == (old(self)@ & !FLAG_N) | ((value & 1) << 1u8),
    {
        self.byte = (self.byte & !FLAG_N) | ((value & 1) << 1u8);
    }

    pub fn c(self) -> (r: u8)
        ensures
            r == self@ & 1,
    {
        self.byte & 1
    }

    pub fn set_c(&mut self, value: u8)
        ensures
            final(self)@ == (old(self)@ & !FLAG_C) | (value & 1),
    {
        self.byte = (self.byte & !FLAG_C) | (value & 1);
    }

    /// Copy bits 3 and 5 of `value` into X and Y.
    pub fn set_xy(&mut self, value: u8)
        ensures
            final(self)@ == (old(self)@ & !(FLAG_X | FLAG_Y)) | (value & (FLAG_X | FLAG_Y)),
    {
        self.byte = (self.byte & !(FLAG_X | FLAG_Y)) | (value & (FLAG_X | FLAG_Y));
    }
}

} // verus!
