//! Determinism of the instructions after a DD/FD prefix: with every read
//! answered from the host's memory, an instruction ends the same whatever
//! bytes came back.

use vstd::prelude::*;

use crate::det::{answered_upto, mem_at};
use crate::dispatch::sem_base;
use crate::index_dispatch::{sem_index_op_alu, sem_index_op_high, sem_index_op_loads, sem_index_op_low};
use crate::processor::Machine;

verus! {

#[verifier::rlimit(60)]
pub(crate) proof fn det_index_low_00(m: Machine, prefix: u8, sub: u8, rv1: Seq<u8>, rv2: Seq<u8>, mem: Seq<u8>, port: u8)
    requires
        0x00 <= sub < 0x10,
        (answered_upto(mem, port, sem_base(m, sub, true, rv1).0.ops, m.ops.len() as int, sem_base(m, sub, true, rv1).0.ops.len() as int)
            && answered_upto(mem, port, sem_base(m, sub, true, rv2).0.ops, m.ops.len() as int, sem_base(m, sub, true, rv2).0.ops.len() as int))
            ==> sem_base(m, sub, true, rv1) == sem_base(m, sub, true, rv2),
        answered_upto(mem, port, sem_index_op_low(m, prefix, sub, rv1).0.ops, m.ops.len() as int, sem_index_op_low(m, prefix, sub, rv1).0.ops.len() as int),
        answered_upto(mem, port, sem_index_op_low(m, prefix, sub, rv2).0.ops, m.ops.len() as int, sem_index_op_low(m, prefix, sub, rv2).0.ops.len() as int),
    ensures
        sem_index_op_low(m, prefix, sub, rv1) == sem_index_op_low(m, prefix, sub, rv2),
{
    reveal_with_fuel(answered_upto, 8);
    reveal_with_fuel(mem_at, 8);
}

#[verifier::rlimit(60)]
pub(crate) proof fn det_index_low_10(m: Machine, prefix: u8, sub: u8, rv1: Seq<u8>, rv2: Seq<u8>, mem: Seq<u8>, port: u8)
    requires
        0x10 <= sub < 0x20,
        (answered_upto(mem, port, sem_base(m, sub, true, rv1).0.ops, m.ops.len() as int, sem_base(m, sub, true, rv1).0.ops.len() as int)
            && answered_upto(mem, port, sem_base(m, sub, true, rv2).0.ops, m.ops.len() as int, sem_base(m, sub, true, rv2).0.ops.len() as int))
            ==> sem_base(m, sub, true, rv1) == sem_base(m, sub, true, rv2),
        answered_upto(mem, port, sem_index_op_low(m, prefix, sub, rv1).0.ops, m.ops.len() as int, sem_index_op_low(m, prefix, sub, rv1).0.ops.len() as int),
        answered_upto(mem, port, sem_index_op_low(m, prefix, sub, rv2).0.ops, m.ops.len() as int, sem_index_op_low(m, prefix, sub, rv2).0.ops.len() as int),
    ensures
        sem_index_op_low(m, prefix, sub, rv1) == sem_index_op_low(m, prefix, sub, rv2),
{
    reveal_with_fuel(answered_upto, 8);
    reveal_with_fuel(mem_at, 8);
}

#[verifier::rlimit(60)]
pub(crate) proof fn det_index_low_20(m: Machine, prefix: u8, sub: u8, rv1: Seq<u8>, rv2: Seq<u8>, mem: Seq<u8>, port: u8)
    requires
        0x20 <= sub < 0x30,
        (answered_upto(mem, port, sem_base(m, sub, true, rv1).0.ops, m.ops.len() as int, sem_base(m, sub, true, rv1).0.ops.len() as int)
            && answered_upto(mem, port, sem_base(m, sub, true, rv2).0.ops, m.ops.len() as int, sem_base(m, sub, true, rv2).0.ops.len() as int))
            ==> sem_base(m, sub, true, rv1) == sem_base(m, sub, true, rv2),
        answered_upto(mem, port, sem_index_op_low(m, prefix, sub, rv1).0.ops, m.ops.len() as int, sem_index_op_low(m, prefix, sub, rv1).0.ops.len() as int),
        answered_upto(mem, port, sem_index_op_low(m, prefix, sub, rv2).0.ops, m.ops.len() as int, sem_index_op_low(m, prefix, sub, rv2).0.ops.len() as int),
    ensures
        sem_index_op_low(m, prefix, sub, rv1) == sem_index_op_low(m, prefix, sub, rv2),
{
    reveal_with_fuel(answered_upto, 8);
    reveal_with_fuel(mem_at, 8);
}

#[verifier::rlimit(60)]
pub(crate) proof fn det_index_low_30(m: Machine, prefix: u8, sub: u8, rv1: Seq<u8>, rv2: Seq<u8>, mem: Seq<u8>, port: u8)
    requires
        0x30 <= sub < 0x40,
        (answered_upto(mem, port, sem_base(m, sub, true, rv1).0.ops, m.ops.len() as int, sem_base(m, sub, true, rv1).0.ops.len() as int)
            && answered_upto(mem, port, sem_base(m, sub, true, rv2).0.ops, m.ops.len() as int, sem_base(m, sub, true, rv2).0.ops.len() as int))
            ==> sem_base(m, sub, true, rv1) == sem_base(m, sub, true, rv2),
        answered_upto(mem, port, sem_index_op_low(m, prefix, sub, rv1).0.ops, m.ops.len() as int, sem_index_op_low(m, prefix, sub, rv1).0.ops.len() as int),
        answered_upto(mem, port, sem_index_op_low(m, prefix, sub, rv2).0.ops, m.ops.len() as int, sem_index_op_low(m, prefix, sub, rv2).0.ops.len() as int),
    ensures
        sem_index_op_low(m, prefix, sub, rv1) == sem_index_op_low(m, prefix, sub, rv2),
{
    reveal_with_fuel(answered_upto, 8);
    reveal_with_fuel(mem_at, 8);
}

#[verifier::rlimit(60)]
pub(crate) proof fn det_index_loads_40(m: Machine, prefix: u8, sub: u8, rv1: Seq<u8>, rv2: Seq<u8>, mem: Seq<u8>, port: u8)
    requires
        0x40 <= sub < 0x50,
        (answered_upto(mem, port, sem_base(m, sub, true, rv1).0.ops, m.ops.len() as int, sem_base(m, sub, true, rv1).0.ops.len() as int)
            && answered_upto(mem, port, sem_base(m, sub, true, rv2).0.ops, m.ops.len() as int, sem_base(m, sub, true, rv2).0.ops.len() as int))
            ==> sem_base(m, sub, true, rv1) == sem_base(m, sub, true, rv2),
        answered_upto(mem, port, sem_index_op_loads(m, prefix, sub, rv1).0.ops, m.ops.len() as int, sem_index_op_loads(m, prefix, sub, rv1).0.ops.len() as int),
        answered_upto(mem, port, sem_index_op_loads(m, prefix, sub, rv2).0.ops, m.ops.len() as int, sem_index_op_loads(m, prefix, sub, rv2).0.ops.len() as int),
    ensures
        sem_index_op_loads(m, prefix, sub, rv1) == sem_index_op_loads(m, prefix, sub, rv2),
{
    reveal_with_fuel(answered_upto, 8);
    reveal_with_fuel(mem_at, 8);
}

#[verifier::rlimit(60)]
pub(crate) proof fn det_index_loads_50(m: Machine, prefix: u8, sub: u8, rv1: Seq<u8>, rv2: Seq<u8>, mem: Seq<u8>, port: u8)
    requires
        0x50 <= sub < 0x60,
        (answered_upto(mem, port, sem_base(m, sub, true, rv1).0.ops, m.ops.len() as int, sem_base(m, sub, true, rv1).0.ops.len() as int)
            && answered_upto(mem, port, sem_base(m, sub, true, rv2).0.ops, m.ops.len() as int, sem_base(m, sub, true, rv2).0.ops.len() as int))
            ==> sem_base(m, sub, true, rv1) == sem_base(m, sub, true, rv2),
        answered_upto(mem, port, sem_index_op_loads(m, prefix, sub, rv1).0.ops, m.ops.len() as int, sem_index_op_loads(m, prefix, sub, rv1).0.ops.len() as int),
        answered_upto(mem, port, sem_index_op_loads(m, prefix, sub, rv2).0.ops, m.ops.len() as int, sem_index_op_loads(m, prefix, sub, rv2).0.ops.len() as int),
    ensures
        sem_index_op_loads(m, prefix, sub, rv1) == sem_index_op_loads(m, prefix, sub, rv2),
{
    reveal_with_fuel(answered_upto, 8);
    reveal_with_fuel(mem_at, 8);
}

#[verifier::rlimit(60)]
pub(crate) proof fn det_index_loads_60(m: Machine, prefix: u8, sub: u8, rv1: Seq<u8>, rv2: Seq<u8>, mem: Seq<u8>, port: u8)
    requires
        0x60 <= sub < 0x70,
        (answered_upto(mem, port, sem_base(m, sub, true, rv1).0.ops, m.ops.len() as int, sem_base(m, sub, true, rv1).0.ops.len() as int)
            && answered_upto(mem, port, sem_base(m, sub, true, rv2).0.ops, m.ops.len() as int, sem_base(m, sub, true, rv2).0.ops.len() as int))
            ==> sem_base(m, sub, true, rv1) == sem_base(m, sub, true, rv2),
        answered_upto(mem, port, sem_index_op_loads(m, prefix, sub, rv1).0.ops, m.ops.len() as int, sem_index_op_loads(m, prefix, sub, rv1).0.ops.len() as int),
        answered_upto(mem, port, sem_index_op_loads(m, prefix, sub, rv2).0.ops, m.ops.len() as int, sem_index_op_loads(m, prefix, sub, rv2).0.ops.len() as int),
    ensures
        sem_index_op_loads(m, prefix, sub, rv1) == sem_index_op_loads(m, prefix, sub, rv2),
{
    reveal_with_fuel(answered_upto, 8);
    reveal_with_fuel(mem_at, 8);
}

#[verifier::rlimit(60)]
pub(crate) proof fn det_index_loads_70(m: Machine, prefix: u8, sub: u8, rv1: Seq<u8>, rv2: Seq<u8>, mem: Seq<u8>, port: u8)
    requires
        0x70 <= sub < 0x80,
        (answered_upto(mem, port, sem_base(m, sub, true, rv1).0.ops, m.ops.len() as int, sem_base(m, sub, true, rv1).0.ops.len() as int)
            && answered_upto(mem, port, sem_base(m, sub, true, rv2).0.ops, m.ops.len() as int, sem_base(m, sub, true, rv2).0.ops.len() as int))
            ==> sem_base(m, sub, true, rv1) == sem_base(m, sub, true, rv2),
        answered_upto(mem, port, sem_index_op_loads(m, prefix, sub, rv1).0.ops, m.ops.len() as int, sem_index_op_loads(m, prefix, sub, rv1).0.ops.len() as int),
        answered_upto(mem, port, sem_index_op_loads(m, prefix, sub, rv2).0.ops, m.ops.len() as int, sem_index_op_loads(m, prefix, sub, rv2).0.ops.len() as int),
    ensures
        sem_index_op_loads(m, prefix, sub, rv1) == sem_index_op_loads(m, prefix, sub, rv2),
{
    reveal_with_fuel(answered_upto, 8);
    reveal_with_fuel(mem_at, 8);
}

#[verifier::rlimit(60)]
pub(crate) proof fn det_index_alu_80(m: Machine, prefix: u8, sub: u8, rv1: Seq<u8>, rv2: Seq<u8>, mem: Seq<u8>, port: u8)
    requires
        0x80 <= sub < 0xA0,
        (answered_upto(mem, port, sem_base(m, sub, true, rv1).0.ops, m.ops.len() as int, sem_base(m, sub, true, rv1).0.ops.len() as int)
            && answered_upto(mem, port, sem_base(m, sub, true, rv2).0.ops, m.ops.len() as int, sem_base(m, sub, true, rv2).0.ops.len() as int))
            ==> sem_base(m, sub, true, rv1) == sem_base(m, sub, true, rv2),
        answered_upto(mem, port, sem_index_op_alu(m, prefix, sub, rv1).0.ops, m.ops.len() as int, sem_index_op_alu(m, prefix, sub, rv1).0.ops.len() as int),
        answered_upto(mem, port, sem_index_op_alu(m, prefix, sub, rv2).0.ops, m.ops.len() as int, sem_index_op_alu(m, prefix, sub, rv2).0.ops.len() as int),
    ensures
        sem_index_op_alu(m, prefix, sub, rv1) == sem_index_op_alu(m, prefix, sub, rv2),
{
    reveal_with_fuel(answered_upto, 8);
    reveal_with_fuel(mem_at, 8);
}

#[verifier::rlimit(60)]
pub(crate) proof fn det_index_alu_a0(m: Machine, prefix: u8, sub: u8, rv1: Seq<u8>, rv2: Seq<u8>, mem: Seq<u8>, port: u8)
    requires
        0xA0 <= sub < 0xC0,
        (answered_upto(mem, port, sem_base(m, sub, true, rv1).0.ops, m.ops.len() as int, sem_base(m, sub, true, rv1).0.ops.len() as int)
            && answered_upto(mem, port, sem_base(m, sub, true, rv2).0.ops, m.ops.len() as int, sem_base(m, sub, true, rv2).0.ops.len() as int))
            ==> sem_base(m, sub, true, rv1) == sem_base(m, sub, true, rv2),
        answered_upto(mem, port, sem_index_op_alu(m, prefix, sub, rv1).0.ops, m.ops.len() as int, sem_index_op_alu(m, prefix, sub, rv1).0.ops.len() as int),
        answered_upto(mem, port, sem_index_op_alu(m, prefix, sub, rv2).0.ops, m.ops.len() as int, sem_index_op_alu(m, prefix, sub, rv2).0.ops.len() as int),
    ensures
        sem_index_op_alu(m, prefix, sub, rv1) == sem_index_op_alu(m, prefix, sub, rv2),
{
    reveal_with_fuel(answered_upto, 8);
    reveal_with_fuel(mem_at, 8);
}

#[verifier::rlimit(60)]
pub(crate) proof fn det_index_high_c0(m: Machine, prefix: u8, sub: u8, rv1: Seq<u8>, rv2: Seq<u8>, mem: Seq<u8>, port: u8)
    requires
        0xC0 <= sub && sub < 0xD0 && sub != 0xCB && sub != 0xDD && sub != 0xED && sub != 0xFD,
        (answered_upto(mem, port, sem_base(m, sub, true, rv1).0.ops, m.ops.len() as int, sem_base(m, sub, true, rv1).0.ops.len() as int)
            && answered_upto(mem, port, sem_base(m, sub, true, rv2).0.ops, m.ops.len() as int, sem_base(m, sub, true, rv2).0.ops.len() as int))
            ==> sem_base(m, sub, true, rv1) == sem_base(m, sub, true, rv2),
        answered_upto(mem, port, sem_index_op_high(m, prefix, sub, rv1).0.ops, m.ops.len() as int, sem_index_op_high(m, prefix, sub, rv1).0.ops.len() as int),
        answered_upto(mem, port, sem_index_op_high(m, prefix, sub, rv2).0.ops, m.ops.len() as int, sem_index_op_high(m, prefix, sub, rv2).0.ops.len() as int),
    ensures
        sem_index_op_high(m, prefix, sub, rv1) == sem_index_op_high(m, prefix, sub, rv2),
{
    reveal_with_fuel(answered_upto, 8);
    reveal_with_fuel(mem_at, 8);
}

#[verifier::rlimit(60)]
pub(crate) proof fn det_index_high_d0(m: Machine, prefix: u8, sub: u8, rv1: Seq<u8>, rv2: Seq<u8>, mem: Seq<u8>, port: u8)
    requires
        0xD0 <= sub && sub < 0xE0 && sub != 0xCB && sub != 0xDD && sub != 0xED && sub != 0xFD,
        (answered_upto(mem, port, sem_base(m, sub, true, rv1).0.ops, m.ops.len() as int, sem_base(m, sub, true, rv1).0.ops.len() as int)
            && answered_upto(mem, port, sem_base(m, sub, true, rv2).0.ops, m.ops.len() as int, sem_base(m, sub, true, rv2).0.ops.len() as int))
            ==> sem_base(m, sub, true, rv1) == sem_base(m, sub, true, rv2),
        answered_upto(mem, port, sem_index_op_high(m, prefix, sub, rv1).0.ops, m.ops.len() as int, sem_index_op_high(m, prefix, sub, rv1).0.ops.len() as int),
        answered_upto(mem, port, sem_index_op_high(m, prefix, sub, rv2).0.ops, m.ops.len() as int, sem_index_op_high(m, prefix, sub, rv2).0.ops.len() as int),
    ensures
        sem_index_op_high(m, prefix, sub, rv1) == sem_index_op_high(m, prefix, sub, rv2),
{
    reveal_with_fuel(answered_upto, 8);
    reveal_with_fuel(mem_at, 8);
}

#[verifier::rlimit(60)]
pub(crate) proof fn det_index_high_e0(m: Machine, prefix: u8, sub: u8, rv1: Seq<u8>, rv2: Seq<u8>, mem: Seq<u8>, port: u8)
    requires
        0xE0 <= sub && sub < 0xF0 && sub != 0xCB && sub != 0xDD && sub != 0xED && sub != 0xFD,
        (answered_upto(mem, port, sem_base(m, sub, true, rv1).0.ops, m.ops.len() as int, sem_base(m, sub, true, rv1).0.ops.len() as int)
            && answered_upto(mem, port, sem_base(m, sub, true, rv2).0.ops, m.ops.len() as int, sem_base(m, sub, true, rv2).0.ops.len() as int))
            ==> sem_base(m, sub, true, rv1) == sem_base(m, sub, true, rv2),
        answered_upto(mem, port, sem_index_op_high(m, prefix, sub, rv1).0.ops, m.ops.len() as int, sem_index_op_high(m, prefix, sub, rv1).0.ops.len() as int),
        answered_upto(mem, port, sem_index_op_high(m, prefix, sub, rv2).0.ops, m.ops.len() as int, sem_index_op_high(m, prefix, sub, rv2).0.ops.len() as int),
    ensures
        sem_index_op_high(m, prefix, sub, rv1) == sem_index_op_high(m, prefix, sub, rv2),
{
    reveal_with_fuel(answered_upto, 8);
    reveal_with_fuel(mem_at, 8);
}

#[verifier::rlimit(60)]
pub(crate) proof fn det_index_high_f0(m: Machine, prefix: u8, sub: u8, rv1: Seq<u8>, rv2: Seq<u8>, mem: Seq<u8>, port: u8)
    requires
        0xF0 <= sub && true && sub != 0xCB && sub != 0xDD && sub != 0xED && sub != 0xFD,
        (answered_upto(mem, port, sem_base(m, sub, true, rv1).0.ops, m.ops.len() as int, sem_base(m, sub, true, rv1).0.ops.len() as int)
            && answered_upto(mem, port, sem_base(m, sub, true, rv2).0.ops, m.ops.len() as int, sem_base(m, sub, true, rv2).0.ops.len() as int))
            ==> sem_base(m, sub, true, rv1) == sem_base(m, sub, true, rv2),
        answered_upto(mem, port, sem_index_op_high(m, prefix, sub, rv1).0.ops, m.ops.len() as int, sem_index_op_high(m, prefix, sub, rv1).0.ops.len() as int),
        answered_upto(mem, port, sem_index_op_high(m, prefix, sub, rv2).0.ops, m.ops.len() as int, sem_index_op_high(m, prefix, sub, rv2).0.ops.len() as int),
    ensures
        sem_index_op_high(m, prefix, sub, rv1) == sem_index_op_high(m, prefix, sub, rv2),
{
    reveal_with_fuel(answered_upto, 8);
    reveal_with_fuel(mem_at, 8);
}

#[verifier::rlimit(60)]
pub(crate) proof fn det_ddcb_0(m: Machine, prefix: u8, rv1: Seq<u8>, rv2: Seq<u8>, mem: Seq<u8>, port: u8)
    requires
        0x00 <= rv1[1] < 0x40 || 0x00 <= rv2[1] < 0x40,
        answered_upto(mem, port, sem_index_op_high(m, prefix, 0xCB, rv1).0.ops, m.ops.len() as int, sem_index_op_high(m, prefix, 0xCB, rv1).0.ops.len() as int),
        answered_upto(mem, port, sem_index_op_high(m, prefix, 0xCB, rv2).0.ops, m.ops.len() as int, sem_index_op_high(m, prefix, 0xCB, rv2).0.ops.len() as int),
    ensures
        sem_index_op_high(m, prefix, 0xCB, rv1) == sem_index_op_high(m, prefix, 0xCB, rv2),
{
    reveal_with_fuel(answered_upto, 8);
    reveal_with_fuel(mem_at, 8);
}

#[verifier::rlimit(60)]
pub(crate) proof fn det_ddcb_1(m: Machine, prefix: u8, rv1: Seq<u8>, rv2: Seq<u8>, mem: Seq<u8>, port: u8)
    requires
        0x40 <= rv1[1] < 0x80 || 0x40 <= rv2[1] < 0x80,
        answered_upto(mem, port, sem_index_op_high(m, prefix, 0xCB, rv1).0.ops, m.ops.len() as int, sem_index_op_high(m, prefix, 0xCB, rv1).0.ops.len() as int),
        answered_upto(mem, port, sem_index_op_high(m, prefix, 0xCB, rv2).0.ops, m.ops.len() as int, sem_index_op_high(m, prefix, 0xCB, rv2).0.ops.len() as int),
    ensures
        sem_index_op_high(m, prefix, 0xCB, rv1) == sem_index_op_high(m, prefix, 0xCB, rv2),
{
    reveal_with_fuel(answered_upto, 8);
    reveal_with_fuel(mem_at, 8);
}

#[verifier::rlimit(60)]
pub(crate) proof fn det_ddcb_2(m: Machine, prefix: u8, rv1: Seq<u8>, rv2: Seq<u8>, mem: Seq<u8>, port: u8)
    requires
        0x80 <= rv1[1] < 0xC0 || 0x80 <= rv2[1] < 0xC0,
        answered_upto(mem, port, sem_index_op_high(m, prefix, 0xCB, rv1).0.ops, m.ops.len() as int, sem_index_op_high(m, prefix, 0xCB, rv1).0.ops.len() as int),
        answered_upto(mem, port, sem_index_op_high(m, prefix, 0xCB, rv2).0.ops, m.ops.len() as int, sem_index_op_high(m, prefix, 0xCB, rv2).0.ops.len() as int),
    ensures
        sem_index_op_high(m, prefix, 0xCB, rv1) == sem_index_op_high(m, prefix, 0xCB, rv2),
{
    reveal_with_fuel(answered_upto, 8);
    reveal_with_fuel(mem_at, 8);
}

#[verifier::rlimit(60)]
pub(crate) proof fn det_ddcb_3(m: Machine, prefix: u8, rv1: Seq<u8>, rv2: Seq<u8>, mem: Seq<u8>, port: u8)
    requires
        rv1[1] >= 0xC0 || rv2[1] >= 0xC0,
        answered_upto(mem, port, sem_index_op_high(m, prefix, 0xCB, rv1).0.ops, m.ops.len() as int, sem_index_op_high(m, prefix, 0xCB, rv1).0.ops.len() as int),
        answered_upto(mem, port, sem_index_op_high(m, prefix, 0xCB, rv2).0.ops, m.ops.len() as int, sem_index_op_high(m, prefix, 0xCB, rv2).0.ops.len() as int),
    ensures
        sem_index_op_high(m, prefix, 0xCB, rv1) == sem_index_op_high(m, prefix, 0xCB, rv2),
{
    reveal_with_fuel(answered_upto, 8);
    reveal_with_fuel(mem_at, 8);
}

} // verus!
