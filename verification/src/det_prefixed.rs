//! Determinism of the CB- and ED-prefixed instruction tables: with every
//! read answered from the host's memory, an instruction ends the same
//! whatever bytes came back.

use vstd::prelude::*;

use crate::det::{answered_upto, mem_at};
use crate::dispatch::{sem_base, sem_cb, sem_ed};
use crate::index_dispatch::{sem_index_op_alu, sem_index_op_high, sem_index_op_loads, sem_index_op_low};
use crate::processor::Machine;

verus! {

#[verifier::rlimit(30)]
pub(crate) proof fn det_cb_0(m: Machine, sub: u8, rv1: Seq<u8>, rv2: Seq<u8>, mem: Seq<u8>, port: u8)
    requires
        0x00 <= sub < 0x40,
        answered_upto(mem, port, sem_cb(m, sub, rv1).0.ops, m.ops.len() as int, sem_cb(m, sub, rv1).0.ops.len() as int),
        answered_upto(mem, port, sem_cb(m, sub, rv2).0.ops, m.ops.len() as int, sem_cb(m, sub, rv2).0.ops.len() as int),
    ensures
        sem_cb(m, sub, rv1) == sem_cb(m, sub, rv2),
{
    reveal_with_fuel(answered_upto, 8);
    reveal_with_fuel(mem_at, 8);
}

#[verifier::rlimit(30)]
pub(crate) proof fn det_cb_1(m: Machine, sub: u8, rv1: Seq<u8>, rv2: Seq<u8>, mem: Seq<u8>, port: u8)
    requires
        0x40 <= sub < 0x80,
        answered_upto(mem, port, sem_cb(m, sub, rv1).0.ops, m.ops.len() as int, sem_cb(m, sub, rv1).0.ops.len() as int),
        answered_upto(mem, port, sem_cb(m, sub, rv2).0.ops, m.ops.len() as int, sem_cb(m, sub, rv2).0.ops.len() as int),
    ensures
        sem_cb(m, sub, rv1) == sem_cb(m, sub, rv2),
{
    reveal_with_fuel(answered_upto, 8);
    reveal_with_fuel(mem_at, 8);
}

#[verifier::rlimit(30)]
pub(crate) proof fn det_cb_2(m: Machine, sub: u8, rv1: Seq<u8>, rv2: Seq<u8>, mem: Seq<u8>, port: u8)
    requires
        0x80 <= sub < 0xC0,
        answered_upto(mem, port, sem_cb(m, sub, rv1).0.ops, m.ops.len() as int, sem_cb(m, sub, rv1).0.ops.len() as int),
        answered_upto(mem, port, sem_cb(m, sub, rv2).0.ops, m.ops.len() as int, sem_cb(m, sub, rv2).0.ops.len() as int),
    ensures
        sem_cb(m, sub, rv1) == sem_cb(m, sub, rv2),
{
    reveal_with_fuel(answered_upto, 8);
    reveal_with_fuel(mem_at, 8);
}

#[verifier::rlimit(30)]
pub(crate) proof fn det_cb_3(m: Machine, sub: u8, rv1: Seq<u8>, rv2: Seq<u8>, mem: Seq<u8>, port: u8)
    requires
        sub >= 0xC0,
        answered_upto(mem, port, sem_cb(m, sub, rv1).0.ops, m.ops.len() as int, sem_cb(m, sub, rv1).0.ops.len() as int),
        answered_upto(mem, port, sem_cb(m, sub, rv2).0.ops, m.ops.len() as int, sem_cb(m, sub, rv2).0.ops.len() as int),
    ensures
        sem_cb(m, sub, rv1) == sem_cb(m, sub, rv2),
{
    reveal_with_fuel(answered_upto, 8);
    reveal_with_fuel(mem_at, 8);
}

#[verifier::rlimit(60)]
pub(crate) proof fn det_ed_0(m: Machine, sub: u8, rv1: Seq<u8>, rv2: Seq<u8>, mem: Seq<u8>, port: u8)
    requires
        0x40 <= sub < 0x48,
        answered_upto(mem, port, sem_ed(m, sub, rv1).0.ops, m.ops.len() as int, sem_ed(m, sub, rv1).0.ops.len() as int),
        answered_upto(mem, port, sem_ed(m, sub, rv2).0.ops, m.ops.len() as int, sem_ed(m, sub, rv2).0.ops.len() as int),
    ensures
        sem_ed(m, sub, rv1) == sem_ed(m, sub, rv2),
{
    reveal_with_fuel(answered_upto, 8);
    reveal_with_fuel(mem_at, 8);
}

#[verifier::rlimit(60)]
pub(crate) proof fn det_ed_1(m: Machine, sub: u8, rv1: Seq<u8>, rv2: Seq<u8>, mem: Seq<u8>, port: u8)
    requires
        0x48 <= sub < 0x50,
        answered_upto(mem, port, sem_ed(m, sub, rv1).0.ops, m.ops.len() as int, sem_ed(m, sub, rv1).0.ops.len() as int),
        answered_upto(mem, port, sem_ed(m, sub, rv2).0.ops, m.ops.len() as int, sem_ed(m, sub, rv2).0.ops.len() as int),
    ensures
        sem_ed(m, sub, rv1) == sem_ed(m, sub, rv2),
{
    reveal_with_fuel(answered_upto, 8);
    reveal_with_fuel(mem_at, 8);
}

#[verifier::rlimit(60)]
pub(crate) proof fn det_ed_2(m: Machine, sub: u8, rv1: Seq<u8>, rv2: Seq<u8>, mem: Seq<u8>, port: u8)
    requires
        0x50 <= sub < 0x58,
        answered_upto(mem, port, sem_ed(m, sub, rv1).0.ops, m.ops.len() as int, sem_ed(m, sub, rv1).0.ops.len() as int),
        answered_upto(mem, port, sem_ed(m, sub, rv2).0.ops, m.ops.len() as int, sem_ed(m, sub, rv2).0.ops.len() as int),
    ensures
        sem_ed(m, sub, rv1) == sem_ed(m, sub, rv2),
{
    reveal_with_fuel(answered_upto, 8);
    reveal_with_fuel(mem_at, 8);
}

#[verifier::rlimit(60)]
pub(crate) proof fn det_ed_3(m: Machine, sub: u8, rv1: Seq<u8>, rv2: Seq<u8>, mem: Seq<u8>, port: u8)
    requires
        0x58 <= sub < 0x60,
        answered_upto(mem, port, sem_ed(m, sub, rv1).0.ops, m.ops.len() as int, sem_ed(m, sub, rv1).0.ops.len() as int),
        answered_upto(mem, port, sem_ed(m, sub, rv2).0.ops, m.ops.len() as int, sem_ed(m, sub, rv2).0.ops.len() as int),
    ensures
        sem_ed(m, sub, rv1) == sem_ed(m, sub, rv2),
{
    reveal_with_fuel(answered_upto, 8);
    reveal_with_fuel(mem_at, 8);
}

#[verifier::rlimit(60)]
pub(crate) proof fn det_ed_4(m: Machine, sub: u8, rv1: Seq<u8>, rv2: Seq<u8>, mem: Seq<u8>, port: u8)
    requires
        0x60 <= sub < 0x68,
        answered_upto(mem, port, sem_ed(m, sub, rv1).0.ops, m.ops.len() as int, sem_ed(m, sub, rv1).0.ops.len() as int),
        answered_upto(mem, port, sem_ed(m, sub, rv2).0.ops, m.ops.len() as int, sem_ed(m, sub, rv2).0.ops.len() as int),
    ensures
        sem_ed(m, sub, rv1) == sem_ed(m, sub, rv2),
{
    reveal_with_fuel(answered_upto, 8);
    reveal_with_fuel(mem_at, 8);
}

#[verifier::rlimit(60)]
pub(crate) proof fn det_ed_5(m: Machine, sub: u8, rv1: Seq<u8>, rv2: Seq<u8>, mem: Seq<u8>, port: u8)
    requires
        0x68 <= sub < 0x70,
        answered_upto(mem, port, sem_ed(m, sub, rv1).0.ops, m.ops.len() as int, sem_ed(m, sub, rv1).0.ops.len() as int),
        answered_upto(mem, port, sem_ed(m, sub, rv2).0.ops, m.ops.len() as int, sem_ed(m, sub, rv2).0.ops.len() as int),
    ensures
        sem_ed(m, sub, rv1) == sem_ed(m, sub, rv2),
{
    reveal_with_fuel(answered_upto, 8);
    reveal_with_fuel(mem_at, 8);
}

#[verifier::rlimit(60)]
pub(crate) proof fn det_ed_6(m: Machine, sub: u8, rv1: Seq<u8>, rv2: Seq<u8>, mem: Seq<u8>, port: u8)
    requires
        0x70 <= sub < 0x78,
        answered_upto(mem, port, sem_ed(m, sub, rv1).0.ops, m.ops.len() as int, sem_ed(m, sub, rv1).0.ops.len() as int),
        answered_upto(mem, port, sem_ed(m, sub, rv2).0.ops, m.ops.len() as int, sem_ed(m, sub, rv2).0.ops.len() as int),
    ensures
        sem_ed(m, sub, rv1) == sem_ed(m, sub, rv2),
{
    reveal_with_fuel(answered_upto, 8);
    reveal_with_fuel(mem_at, 8);
}

#[verifier::rlimit(60)]
pub(crate) proof fn det_ed_7(m: Machine, sub: u8, rv1: Seq<u8>, rv2: Seq<u8>, mem: Seq<u8>, port: u8)
    requires
        0x78 <= sub < 0x80,
        answered_upto(mem, port, sem_ed(m, sub, rv1).0.ops, m.ops.len() as int, sem_ed(m, sub, rv1).0.ops.len() as int),
        answered_upto(mem, port, sem_ed(m, sub, rv2).0.ops, m.ops.len() as int, sem_ed(m, sub, rv2).0.ops.len() as int),
    ensures
        sem_ed(m, sub, rv1) == sem_ed(m, sub, rv2),
{
    reveal_with_fuel(answered_upto, 8);
    reveal_with_fuel(mem_at, 8);
}

#[verifier::rlimit(60)]
pub(crate) proof fn det_ed_8(m: Machine, sub: u8, rv1: Seq<u8>, rv2: Seq<u8>, mem: Seq<u8>, port: u8)
    requires
        0xA0 <= sub < 0xA4,
        answered_upto(mem, port, sem_ed(m, sub, rv1).0.ops, m.ops.len() as int, sem_ed(m, sub, rv1).0.ops.len() as int),
        answered_upto(mem, port, sem_ed(m, sub, rv2).0.ops, m.ops.len() as int, sem_ed(m, sub, rv2).0.ops.len() as int),
    ensures
        sem_ed(m, sub, rv1) == sem_ed(m, sub, rv2),
{
    reveal_with_fuel(answered_upto, 8);
    reveal_with_fuel(mem_at, 8);
}

#[verifier::rlimit(60)]
pub(crate) proof fn det_ed_9(m: Machine, sub: u8, rv1: Seq<u8>, rv2: Seq<u8>, mem: Seq<u8>, port: u8)
    requires
        0xA4 <= sub < 0xA8,
        answered_upto(mem, port, sem_ed(m, sub, rv1).0.ops, m.ops.len() as int, sem_ed(m, sub, rv1).0.ops.len() as int),
        answered_upto(mem, port, sem_ed(m, sub, rv2).0.ops, m.ops.len() as int, sem_ed(m, sub, rv2).0.ops.len() as int),
    ensures
        sem_ed(m, sub, rv1) == sem_ed(m, sub, rv2),
{
    reveal_with_fuel(answered_upto, 8);
    reveal_with_fuel(mem_at, 8);
}

#[verifier::rlimit(60)]
pub(crate) proof fn det_ed_10(m: Machine, sub: u8, rv1: Seq<u8>, rv2: Seq<u8>, mem: Seq<u8>, port: u8)
    requires
        0xA8 <= sub < 0xAC,
        answered_upto(mem, port, sem_ed(m, sub, rv1).0.ops, m.ops.len() as int, sem_ed(m, sub, rv1).0.ops.len() as int),
        answered_upto(mem, port, sem_ed(m, sub, rv2).0.ops, m.ops.len() as int, sem_ed(m, sub, rv2).0.ops.len() as int),
    ensures
        sem_ed(m, sub, rv1) == sem_ed(m, sub, rv2),
{
    reveal_with_fuel(answered_upto, 8);
    reveal_with_fuel(mem_at, 8);
}

#[verifier::rlimit(60)]
pub(crate) proof fn det_ed_11(m: Machine, sub: u8, rv1: Seq<u8>, rv2: Seq<u8>, mem: Seq<u8>, port: u8)
    requires
        0xAC <= sub < 0xB0,
        answered_upto(mem, port, sem_ed(m, sub, rv1).0.ops, m.ops.len() as int, sem_ed(m, sub, rv1).0.ops.len() as int),
        answered_upto(mem, port, sem_ed(m, sub, rv2).0.ops, m.ops.len() as int, sem_ed(m, sub, rv2).0.ops.len() as int),
    ensures
        sem_ed(m, sub, rv1) == sem_ed(m, sub, rv2),
{
    reveal_with_fuel(answered_upto, 8);
    reveal_with_fuel(mem_at, 8);
}

#[verifier::rlimit(60)]
pub(crate) proof fn det_ed_12(m: Machine, sub: u8, rv1: Seq<u8>, rv2: Seq<u8>, mem: Seq<u8>, port: u8)
    requires
        0xB0 <= sub < 0xB4,
        answered_upto(mem, port, sem_ed(m, sub, rv1).0.ops, m.ops.len() as int, sem_ed(m, sub, rv1).0.ops.len() as int),
        answered_upto(mem, port, sem_ed(m, sub, rv2).0.ops, m.ops.len() as int, sem_ed(m, sub, rv2).0.ops.len() as int),
    ensures
        sem_ed(m, sub, rv1) == sem_ed(m, sub, rv2),
{
    reveal_with_fuel(answered_upto, 8);
    reveal_with_fuel(mem_at, 8);
}

#[verifier::rlimit(60)]
pub(crate) proof fn det_ed_13(m: Machine, sub: u8, rv1: Seq<u8>, rv2: Seq<u8>, mem: Seq<u8>, port: u8)
    requires
        0xB4 <= sub < 0xB8,
        answered_upto(mem, port, sem_ed(m, sub, rv1).0.ops, m.ops.len() as int, sem_ed(m, sub, rv1).0.ops.len() as int),
        answered_upto(mem, port, sem_ed(m, sub, rv2).0.ops, m.ops.len() as int, sem_ed(m, sub, rv2).0.ops.len() as int),
    ensures
        sem_ed(m, sub, rv1) == sem_ed(m, sub, rv2),
{
    reveal_with_fuel(answered_upto, 8);
    reveal_with_fuel(mem_at, 8);
}

#[verifier::rlimit(60)]
pub(crate) proof fn det_ed_14(m: Machine, sub: u8, rv1: Seq<u8>, rv2: Seq<u8>, mem: Seq<u8>, port: u8)
    requires
        0xB8 <= sub < 0xBC,
        answered_upto(mem, port, sem_ed(m, sub, rv1).0.ops, m.ops.len() as int, sem_ed(m, sub, rv1).0.ops.len() as int),
        answered_upto(mem, port, sem_ed(m, sub, rv2).0.ops, m.ops.len() as int, sem_ed(m, sub, rv2).0.ops.len() as int),
    ensures
        sem_ed(m, sub, rv1) == sem_ed(m, sub, rv2),
{
    reveal_with_fuel(answered_upto, 8);
    reveal_with_fuel(mem_at, 8);
}

#[verifier::rlimit(60)]
pub(crate) proof fn det_ed_15(m: Machine, sub: u8, rv1: Seq<u8>, rv2: Seq<u8>, mem: Seq<u8>, port: u8)
    requires
        0xBC <= sub < 0xC0,
        answered_upto(mem, port, sem_ed(m, sub, rv1).0.ops, m.ops.len() as int, sem_ed(m, sub, rv1).0.ops.len() as int),
        answered_upto(mem, port, sem_ed(m, sub, rv2).0.ops, m.ops.len() as int, sem_ed(m, sub, rv2).0.ops.len() as int),
    ensures
        sem_ed(m, sub, rv1) == sem_ed(m, sub, rv2),
{
    reveal_with_fuel(answered_upto, 8);
    reveal_with_fuel(mem_at, 8);
}

#[verifier::rlimit(60)]
pub(crate) proof fn det_ed_16(m: Machine, sub: u8, rv1: Seq<u8>, rv2: Seq<u8>, mem: Seq<u8>, port: u8)
    requires
        sub < 0x40 || (0x80 <= sub < 0xA0) || sub >= 0xC0,
        answered_upto(mem, port, sem_ed(m, sub, rv1).0.ops, m.ops.len() as int, sem_ed(m, sub, rv1).0.ops.len() as int),
        answered_upto(mem, port, sem_ed(m, sub, rv2).0.ops, m.ops.len() as int, sem_ed(m, sub, rv2).0.ops.len() as int),
    ensures
        sem_ed(m, sub, rv1) == sem_ed(m, sub, rv2),
{
    reveal_with_fuel(answered_upto, 8);
    reveal_with_fuel(mem_at, 8);
}

} // verus!
