//! Values for capturing and restoring Z80 processor state.
//!
//! The fields, in this order, are the definition of "processor state" for
//! conformance purposes.

use vstd::prelude::*;
use vstd::string::StringExecFns;

use crate::text::{append_bool, append_decimal, bool_text, decimal};

verus! {

/// Complete CPU-owned state at an instruction boundary.
///
/// Registers, internal execution state, and pending lifecycle requests. It
/// deliberately excludes host memory, ports, devices, scheduling, and
/// counters, so restoring it restores the processor, not a complete machine.
#[derive(Clone, Copy, Debug, PartialEq, Eq, Structural)]
pub struct CpuState {
    pub a: u8,
    pub f: u8,
    pub b: u8,
    pub c: u8,
    pub d: u8,
    pub e: u8,
    pub h: u8,
    pub l: u8,
    pub ix: u16,
    pub iy: u16,
    pub sp: u16,
    pub pc: u16,
    pub wz: u16,
    pub i: u8,
    pub r: u8,
    pub iff1: bool,
    pub iff2: bool,
    pub im: u8,
    pub af_alt: u16,
    pub bc_alt: u16,
    pub de_alt: u16,
    pub hl_alt: u16,
    pub q: u8,
    pub halted: bool,
    pub ei_delay: u8,
    pub reset_pending: bool,
    pub maskable_interrupt_vector: Option<u8>,
    pub non_maskable_interrupt_pending: bool,
}

/// The all-zero state: every register 0, every flip-flop and request clear.
pub open spec fn zero_state() -> CpuState {
    CpuState {
        a: 0,
        f: 0,
        b: 0,
        c: 0,
        d: 0,
        e: 0,
        h: 0,
        l: 0,
        ix: 0,
        iy: 0,
        sp: 0,
        pc: 0,
        wz: 0,
        i: 0,
        r: 0,
        iff1: false,
        iff2: false,
        im: 0,
        af_alt: 0,
        bc_alt: 0,
        de_alt: 0,
        hl_alt: 0,
        q: 0,
        halted: false,
        ei_delay: 0,
        reset_pending: false,
        maskable_interrupt_vector: None,
        non_maskable_interrupt_pending: false,
    }
}

/// The text of the pending maskable-interrupt byte: its decimal value, or
/// `null` when none is pending.
pub open spec fn vector_text(v: Option<u8>) -> Seq<char> {
    match v {
        Some(x) => decimal(x as nat),
        None => "null"@,
    }
}

/// The state as a JSON object with sorted keys and no whitespace.
pub open spec fn state_json(s: CpuState) -> Seq<char> {
    "{\"a\":"@
        + decimal(s.a as nat)
        + ",\"af_alt\":"@
        + decimal(s.af_alt as nat)
        + ",\"b\":"@
        + decimal(s.b as nat)
        + ",\"bc_alt\":"@
        + decimal(s.bc_alt as nat)
        + ",\"c\":"@
        + decimal(s.c as nat)
        + ",\"d\":"@
        + decimal(s.d as nat)
        + ",\"de_alt\":"@
        + decimal(s.de_alt as nat)
        + ",\"e\":"@
        + decimal(s.e as nat)
        + ",\"ei_delay\":"@
        + decimal(s.ei_delay as nat)
        + ",\"f\":"@
        + decimal(s.f as nat)
        + ",\"h\":"@
        + decimal(s.h as nat)
        + ",\"halted\":"@
        + bool_text(s.halted)
        + ",\"hl_alt\":"@
        + decimal(s.hl_alt as nat)
        + ",\"i\":"@
        + decimal(s.i as nat)
        + ",\"iff1\":"@
        + bool_text(s.iff1)
        + ",\"iff2\":"@
        + bool_text(s.iff2)
        + ",\"im\":"@
        + decimal(s.im as nat)
        + ",\"ix\":"@
        + decimal(s.ix as nat)
        + ",\"iy\":"@
        + decimal(s.iy as nat)
        + ",\"l\":"@
        + decimal(s.l as nat)
        + ",\"maskable_interrupt_vector\":"@
        + vector_text(s.maskable_interrupt_vector)
        + ",\"non_maskable_interrupt_pending\":"@
        + bool_text(s.non_maskable_interrupt_pending)
        + ",\"pc\":"@
        + decimal(s.pc as nat)
        + ",\"q\":"@
        + decimal(s.q as nat)
        + ",\"r\":"@
        + decimal(s.r as nat)
        + ",\"reset_pending\":"@
        + bool_text(s.reset_pending)
        + ",\"sp\":"@
        + decimal(s.sp as nat)
        + ",\"wz\":"@
        + decimal(s.wz as nat)
        + "}"@
}

/// Field names in declaration order, the order states are compared in.
pub open spec fn field_names() -> Seq<Seq<char>> {
    seq!["a"@, "f"@, "b"@, "c"@, "d"@, "e"@, "h"@, "l"@, "ix"@, "iy"@, "sp"@, "pc"@, "wz"@, "i"@, "r"@, "iff1"@, "iff2"@, "im"@, "af_alt"@, "bc_alt"@, "de_alt"@, "hl_alt"@, "q"@, "halted"@, "ei_delay"@, "reset_pending"@, "maskable_interrupt_vector"@, "non_maskable_interrupt_pending"@]
}

/// The field names in sorted order.
pub open spec fn sorted_field_names() -> Seq<Seq<char>> {
    seq!["a"@, "af_alt"@, "b"@, "bc_alt"@, "c"@, "d"@, "de_alt"@, "e"@, "ei_delay"@, "f"@, "h"@, "halted"@, "hl_alt"@, "i"@, "iff1"@, "iff2"@, "im"@, "ix"@, "iy"@, "l"@, "maskable_interrupt_vector"@, "non_maskable_interrupt_pending"@, "pc"@, "q"@, "r"@, "reset_pending"@, "sp"@, "wz"@]
}

/// The field names in declaration order.
pub fn field_name_list() -> (r: Vec<&'static str>)
    ensures
        r@.map_values(|t: &str| t@) == field_names(),
{
    let r = vec!["a", "f", "b", "c", "d", "e", "h", "l", "ix", "iy", "sp", "pc", "wz", "i", "r", "iff1", "iff2", "im", "af_alt", "bc_alt", "de_alt", "hl_alt", "q", "halted", "ei_delay", "reset_pending", "maskable_interrupt_vector", "non_maskable_interrupt_pending"];
    assert(r@.map_values(|t: &str| t@) =~= field_names());
    r
}

/// The field names in sorted order.
pub fn sorted_field_name_list() -> (r: Vec<&'static str>)
    ensures
        r@.map_values(|t: &str| t@) == sorted_field_names(),
{
    let r = vec!["a", "af_alt", "b", "bc_alt", "c", "d", "de_alt", "e", "ei_delay", "f", "h", "halted", "hl_alt", "i", "iff1", "iff2", "im", "ix", "iy", "l", "maskable_interrupt_vector", "non_maskable_interrupt_pending", "pc", "q", "r", "reset_pending", "sp", "wz"];
    assert(r@.map_values(|t: &str| t@) =~= sorted_field_names());
    r
}

/// Append the text of the pending maskable-interrupt byte.
fn append_vector(out: &mut String, v: Option<u8>)
    ensures
        final(out)@ == old(out)@ + vector_text(v),
{
    match v {
        Some(vector) => append_decimal(out, vector as u64),
        None => out.append("null"),
    }
}

impl CpuState {
    /// Validate the constraints every captured state meets: IM is 0, 1, or
    /// 2, and the EI delay is 0 or 1.
    pub fn validate(&self) -> (r: Result<(), String>)
        ensures
            match r {
                Ok(()) => self.im <= 2 && self.ei_delay <= 1,
                Err(m) => if self.im > 2 {
                    m@ == "im must be 0, 1, or 2"@
                } else {
                    self.ei_delay > 1 && m@ == "ei_delay must be 0 or 1"@
                },
            },
    {
        if self.im > 2 {
            return Err(String::from_str("im must be 0, 1, or 2"));
        }
        if self.ei_delay > 1 {
            return Err(String::from_str("ei_delay must be 0 or 1"));
        }
        Ok(())
    }

    /// Append the state as a JSON object with sorted keys and no whitespace.
    pub fn write_json(&self, out: &mut String)
        ensures
            final(out)@ == old(out)@ + state_json(*self),
    {
        let mut s = String::from_str("{\"a\":");
        append_decimal(&mut s, self.a as u64);
        s.append(",\"af_alt\":");
        append_decimal(&mut s, self.af_alt as u64);
        s.append(",\"b\":");
        append_decimal(&mut s, self.b as u64);
        s.append(",\"bc_alt\":");
        append_decimal(&mut s, self.bc_alt as u64);
        s.append(",\"c\":");
        append_decimal(&mut s, self.c as u64);
        s.append(",\"d\":");
        append_decimal(&mut s, self.d as u64);
        s.append(",\"de_alt\":");
        append_decimal(&mut s, self.de_alt as u64);
        s.append(",\"e\":");
        append_decimal(&mut s, self.e as u64);
        s.append(",\"ei_delay\":");
        append_decimal(&mut s, self.ei_delay as u64);
        s.append(",\"f\":");
        append_decimal(&mut s, self.f as u64);
        s.append(",\"h\":");
        append_decimal(&mut s, self.h as u64);
        s.append(",\"halted\":");
        append_bool(&mut s, self.halted);
        s.append(",\"hl_alt\":");
        append_decimal(&mut s, self.hl_alt as u64);
        s.append(",\"i\":");
        append_decimal(&mut s, self.i as u64);
        s.append(",\"iff1\":");
        append_bool(&mut s, self.iff1);
        s.append(",\"iff2\":");
        append_bool(&mut s, self.iff2);
        s.append(",\"im\":");
        append_decimal(&mut s, self.im as u64);
        s.append(",\"ix\":");
        append_decimal(&mut s, self.ix as u64);
        s.append(",\"iy\":");
        append_decimal(&mut s, self.iy as u64);
        s.append(",\"l\":");
        append_decimal(&mut s, self.l as u64);
        s.append(",\"maskable_interrupt_vector\":");
        append_vector(&mut s, self.maskable_interrupt_vector);
        s.append(",\"non_maskable_interrupt_pending\":");
        append_bool(&mut s, self.non_maskable_interrupt_pending);
        s.append(",\"pc\":");
        append_decimal(&mut s, self.pc as u64);
        s.append(",\"q\":");
        append_decimal(&mut s, self.q as u64);
        s.append(",\"r\":");
        append_decimal(&mut s, self.r as u64);
        s.append(",\"reset_pending\":");
        append_bool(&mut s, self.reset_pending);
        s.append(",\"sp\":");
        append_decimal(&mut s, self.sp as u64);
        s.append(",\"wz\":");
        append_decimal(&mut s, self.wz as u64);
        s.append("}");
        out.append(s.as_str());
    }
}

impl Default for CpuState {
    fn default() -> (r: Self)
        ensures
            r == zero_state(),
    {
        CpuState {
            a: 0,
            f: 0,
            b: 0,
            c: 0,
            d: 0,
            e: 0,
            h: 0,
            l: 0,
            ix: 0,
            iy: 0,
            sp: 0,
            pc: 0,
            wz: 0,
            i: 0,
            r: 0,
            iff1: false,
            iff2: false,
            im: 0,
            af_alt: 0,
            bc_alt: 0,
            de_alt: 0,
            hl_alt: 0,
            q: 0,
            halted: false,
            ei_delay: 0,
            reset_pending: false,
            maskable_interrupt_vector: None,
            non_maskable_interrupt_pending: false,
        }
    }
}

} // verus!
