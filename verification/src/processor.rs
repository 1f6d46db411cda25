//! CPU state, the bus model, fetch, stack, and register-selection helpers.
//!
//! The host is a [`Bus`] value owned by the [`Z80`] struct. Every exchange
//! with it extends the host's own `history`: the contracts of the
//! instruction handlers state exactly which addresses and values are handed
//! to the bus, and express the new processor state as a function of the old
//! state and of the bytes the bus returned.

use vstd::prelude::*;

use vstd::string::StringExecFns;

use crate::flags::Flags;
use crate::state::{zero_state, CpuState};
use crate::text::{append_padded_upper_hex, padded_upper_hex};

verus! {

/// Memory and I/O supplied by the host. Addresses are already 16-bit and
/// values 8-bit, so a host never has to mask.
///
/// `history` is every exchange the host has been handed, in order. A host
/// that declares `obeys_bus_spec` promises that each method adds exactly
/// the exchange it performs, with the address and value it was given or
/// the value it returned. A host written outside verification keeps the
/// defaults and promises nothing; the CPU then states its bus traffic over
/// its own record of the calls it made.
pub trait Bus {
    closed spec fn obeys_bus_spec() -> bool {
        false
    }

    closed spec fn history(&self) -> Seq<BusOp> {
        Seq::empty()
    }

    /// A condition the host keeps relative to an earlier state `start` of
    /// itself: each method that starts with it holding ends with it holding.
    /// A host verified here states what it keeps (the conformance host: its
    /// history still begins with that of `start`, its port value and output
    /// are those of `start`, every read since was answered from `start`'s
    /// memory with the writes made before it applied, and its memory is
    /// `start`'s with the writes since applied); the default asks nothing.
    closed spec fn inv(&self, start: &Self) -> bool {
        true
    }

    fn read_byte(&mut self, addr: u16) -> (r: u8)
        ensures
            Self::obeys_bus_spec() ==> final(self).history() == old(self).history().push(rd(addr, r)),
            forall|start: &Self| old(self).inv(start) ==> #[trigger] final(self).inv(start),
    ;

    fn write_byte(&mut self, addr: u16, value: u8)
        ensures
            Self::obeys_bus_spec() ==> final(self).history() == old(self).history().push(wr(addr, value)),
            forall|start: &Self| old(self).inv(start) ==> #[trigger] final(self).inv(start),
    ;

    fn read_port(&mut self, addr: u16) -> (r: u8)
        ensures
            Self::obeys_bus_spec() ==> final(self).history() == old(self).history().push(pin(addr, r)),
            forall|start: &Self| old(self).inv(start) ==> #[trigger] final(self).inv(start),
    ;

    fn write_port(&mut self, addr: u16, value: u8)
        ensures
            Self::obeys_bus_spec() ==> final(self).history() == old(self).history().push(pout(addr, value)),
            forall|start: &Self| old(self).inv(start) ==> #[trigger] final(self).inv(start),
    ;
}

/// Whatever condition the host `before` kept (see [`Bus::inv`]), `after`
/// keeps too.
pub open spec fn host_kept<B: Bus>(before: B, after: B) -> bool {
    forall|start: B| before.inv(&start) ==> #[trigger] after.inv(&start)
}

/// The conditions under which the core stops instead of executing.
///
/// The state is left exactly as it was at the moment of the stop, and the
/// error is returned, so a run that hits one ends exactly there.
#[derive(Clone, Debug, PartialEq, Eq, Structural)]
pub enum Fault {
    /// A run of DD/FD prefixes too long for one boundary to account for:
    /// returned when a boundary has already fetched `STRAY_LIMIT / 4` (over
    /// a billion) consecutive prefixes and fetches another, so its T-state
    /// count would overflow. `prefix` and `opcode` are that last prefix and
    /// `pc` the address after it. It needs a bus that answers prefixes over
    /// and over; the index dispatch table itself handles every byte.
    UnhandledIndexOpcode { prefix: u8, opcode: u8, pc: u16 },
    /// An unprefixed opcode the main dispatcher does not handle. Unreachable
    /// in practice: every one of the 256 is handled.
    UnhandledOpcode { opcode: u8, pc: u16 },
    /// IM 0 acceptance with a device byte that is not an RST opcode. The
    /// request stays pending.
    Im0NonRstVector(u8),
}

/// The message of a fault: its bytes and addresses in upper-case hex,
/// bytes in two digits and addresses in four.
pub open spec fn fault_text(f: Fault) -> Seq<char> {
    match f {
        Fault::UnhandledIndexOpcode { prefix, opcode, pc } => "unhandled "@ + padded_upper_hex(prefix as nat, 2)
            + "-prefixed opcode 0x"@ + padded_upper_hex(opcode as nat, 2) + " at PC 0x"@ + padded_upper_hex(
            pc as nat,
            4,
        ),
        Fault::UnhandledOpcode { opcode, pc } => "unhandled opcode 0x"@ + padded_upper_hex(opcode as nat, 2)
            + " at PC 0x"@ + padded_upper_hex(pc as nat, 4),
        Fault::Im0NonRstVector(v) => "IM 0 currently supports only device-supplied RST opcodes (got 0x"@
            + padded_upper_hex(v as nat, 2) + ")"@,
    }
}

impl Fault {
    /// The fault's message.
    pub fn message(&self) -> (r: String)
        ensures
            r@ == fault_text(*self),
    {
        match self {
            Fault::UnhandledIndexOpcode { prefix, opcode, pc } => {
                let mut m = String::from_str("unhandled ");
                append_padded_upper_hex(&mut m, *prefix as u64, 2);
                m.append("-prefixed opcode 0x");
                append_padded_upper_hex(&mut m, *opcode as u64, 2);
                m.append(" at PC 0x");
                append_padded_upper_hex(&mut m, *pc as u64, 4);
                m
            },
            Fault::UnhandledOpcode { opcode, pc } => {
                let mut m = String::from_str("unhandled opcode 0x");
                append_padded_upper_hex(&mut m, *opcode as u64, 2);
                m.append(" at PC 0x");
                append_padded_upper_hex(&mut m, *pc as u64, 4);
                m
            },
            Fault::Im0NonRstVector(v) => {
                let mut m = String::from_str("IM 0 currently supports only device-supplied RST opcodes (got 0x");
                append_padded_upper_hex(&mut m, *v as u64, 2);
                m.append(")");
                m
            },
        }
    }
}

/// What kind of exchange with the host took place.
#[derive(Clone, Copy, Debug, PartialEq, Eq, Structural)]
pub enum BusKind {
    MemRead,
    MemWrite,
    PortRead,
    PortWrite,
}

/// One exchange with the host: the address handed over, and the value that
/// was written or that came back.
#[derive(Clone, Copy, Debug, PartialEq, Eq, Structural)]
pub struct BusOp {
    pub kind: BusKind,
    pub addr: u16,
    pub value: u8,
}

/// Everything the core owns, as mathematical values: the processor state,
/// the data latch of the block I/O instructions, the NMOS erratum switch,
/// the exchanges with the host so far, and the bytes of the current
/// instruction.
pub struct Machine {
    pub st: CpuState,
    pub io_data: u8,
    pub erratum: bool,
    pub ops: Seq<BusOp>,
    pub bytes: Seq<u8>,
}

pub open spec fn rd(addr: u16, value: u8) -> BusOp {
    BusOp { kind: BusKind::MemRead, addr, value }
}

pub open spec fn wr(addr: u16, value: u8) -> BusOp {
    BusOp { kind: BusKind::MemWrite, addr, value }
}

pub open spec fn pin(addr: u16, value: u8) -> BusOp {
    BusOp { kind: BusKind::PortRead, addr, value }
}

pub open spec fn pout(addr: u16, value: u8) -> BusOp {
    BusOp { kind: BusKind::PortWrite, addr, value }
}

/// The 16-bit value with high byte `h` and low byte `l`.
pub open spec fn word(h: u8, l: u8) -> u16 {
    ((h as u16) << 8u16) | (l as u16)
}

pub open spec fn hi(v: u16) -> u8 {
    (v >> 8u16) as u8
}

pub open spec fn lo(v: u16) -> u8 {
    v as u8
}

pub proof fn lemma_word(h: u8, l: u8, v: u16)
    by (bit_vector)
    ensures
        (((((h as u16) << 8u16) | (l as u16)) >> 8u16) as u8) == h,
        ((((h as u16) << 8u16) | (l as u16)) as u8) == l,
        ((((v >> 8u16) as u8) as u16) << 8u16) | ((v as u8) as u16) == v,
{
}

pub open spec fn hl(s: CpuState) -> u16 {
    word(s.h, s.l)
}

pub open spec fn bc(s: CpuState) -> u16 {
    word(s.b, s.c)
}

pub open spec fn de(s: CpuState) -> u16 {
    word(s.d, s.e)
}

/// The 8-bit register with encoding `i`: B C D E H L - A (6 is (HL)).
pub open spec fn reg(s: CpuState, i: u8) -> u8 {
    if i == 0 {
        s.b
    } else if i == 1 {
        s.c
    } else if i == 2 {
        s.d
    } else if i == 3 {
        s.e
    } else if i == 4 {
        s.h
    } else if i == 5 {
        s.l
    } else {
        s.a
    }
}

pub open spec fn set_reg(s: CpuState, i: u8, v: u8) -> CpuState {
    if i == 0 {
        CpuState { b: v, ..s }
    } else if i == 1 {
        CpuState { c: v, ..s }
    } else if i == 2 {
        CpuState { d: v, ..s }
    } else if i == 3 {
        CpuState { e: v, ..s }
    } else if i == 4 {
        CpuState { h: v, ..s }
    } else if i == 5 {
        CpuState { l: v, ..s }
    } else {
        CpuState { a: v, ..s }
    }
}

/// The register pair with encoding `i`: BC DE HL SP.
pub open spec fn pair(s: CpuState, i: u8) -> u16 {
    if i == 0 {
        bc(s)
    } else if i == 1 {
        de(s)
    } else if i == 2 {
        hl(s)
    } else {
        s.sp
    }
}

pub open spec fn set_pair(s: CpuState, i: u8, v: u16) -> CpuState {
    if i == 0 {
        CpuState { b: hi(v), c: lo(v), ..s }
    } else if i == 1 {
        CpuState { d: hi(v), e: lo(v), ..s }
    } else if i == 2 {
        CpuState { h: hi(v), l: lo(v), ..s }
    } else {
        CpuState { sp: v, ..s }
    }
}

/// R after one M1 cycle: the low seven bits count, bit 7 is kept.
pub open spec fn next_r(r: u8) -> u8 {
    (r & 0x80) | (r.wrapping_add(1) & 0x7F)
}

/// An M1 cycle keeps bit 7 of R and counts its low seven bits modulo 128.
pub proof fn lemma_next_r(r: u8)
    by (bit_vector)
    ensures
        next_r(r) & 0x80 == r & 0x80,
        next_r(r) & 0x7F == ((r & 0x7F) + 1) % 128,
{
}

pub open spec fn with_st(m: Machine, s: CpuState) -> Machine {
    Machine { st: s, ..m }
}

pub open spec fn logged(m: Machine, op: BusOp) -> Machine {
    Machine { ops: m.ops.push(op), ..m }
}

/// An opcode or prefix fetch (an M1 cycle) that returned `v`.
pub open spec fn fetched(m: Machine, v: u8) -> Machine {
    Machine {
        st: CpuState { pc: m.st.pc.wrapping_add(1), r: next_r(m.st.r), ..m.st },
        ops: m.ops.push(rd(m.st.pc, v)),
        bytes: m.bytes.push(v),
        ..m
    }
}

/// An operand or displacement read from PC that returned `v`.
pub open spec fn operand(m: Machine, v: u8) -> Machine {
    Machine {
        st: CpuState { pc: m.st.pc.wrapping_add(1), ..m.st },
        ops: m.ops.push(rd(m.st.pc, v)),
        bytes: m.bytes.push(v),
        ..m
    }
}

/// A two-byte operand read from PC, low byte first.
pub open spec fn operand2(m: Machine, l: u8, h: u8) -> Machine {
    operand(operand(m, l), h)
}

/// `v` pushed: high byte to SP-1, then low byte to SP-2.
pub open spec fn pushed(m: Machine, v: u16) -> Machine {
    let sp1 = m.st.sp.wrapping_sub(1);
    let sp2 = sp1.wrapping_sub(1);
    Machine { st: CpuState { sp: sp2, ..m.st }, ops: m.ops + seq![wr(sp1, hi(v)), wr(sp2, lo(v))], ..m }
}

/// A word popped: low byte `l` from SP, high byte `h` from SP+1.
pub open spec fn popped(m: Machine, l: u8, h: u8) -> Machine {
    let sp1 = m.st.sp.wrapping_add(1);
    Machine {
        st: CpuState { sp: sp1.wrapping_add(1), ..m.st },
        ops: m.ops + seq![rd(m.st.sp, l), rd(sp1, h)],
        ..m
    }
}

/// Q after an instruction that wrote the flags: a copy of F.
pub open spec fn q_set(m: Machine) -> Machine {
    Machine { st: CpuState { q: m.st.f, ..m.st }, ..m }
}

/// Q after an instruction that left the flags alone: 0.
pub open spec fn q_clear(m: Machine) -> Machine {
    Machine { st: CpuState { q: 0, ..m.st }, ..m }
}

/// Z80 instruction core with memory and I/O supplied by the host `B`.
///
/// A newly constructed CPU has zeroed processor state.
pub struct Z80<B: Bus> {
    pub bus: B,
    pub a: u8,
    pub f: Flags,
    pub b: u8,
    pub c: u8,
    pub d: u8,
    pub e: u8,
    pub h: u8,
    pub l: u8,
    pub ix: u16,
    pub iy: u16,
    pub sp: u16,
    pub pc: u16,
    pub wz: u16,
    pub i: u8,
    pub r: u8,
    pub iff1: bool,
    pub iff2: bool,
    pub im: u8,
    pub af_: u16,
    pub bc_: u16,
    pub de_: u16,
    pub hl_: u16,
    pub q: u8,
    pub io_data: u8,
    pub halted: bool,
    pub ei_delay: u8,
    pub ei_nmi_iff2_erratum: bool,
    pub reset_pending: bool,
    pub pending_maskable_interrupt: Option<u8>,
    pub non_maskable_interrupt_pending: bool,
    /// Not processor state: the bytes the current instruction has consumed
    /// from PC (opcode, prefixes, operands), so a trace can report exactly
    /// the bytes the instruction occupied without a disassembler.
    pub fetched: Vec<u8>,
    /// Every byte the bus returned, in order.
    pub replies: Ghost<Seq<u8>>,
    /// Every exchange this CPU has made with its host, in order; the bus
    /// traffic the contracts speak of when the host does not declare
    /// `obeys_bus_spec`.
    pub calls: Ghost<Seq<BusOp>>,
}

/// The bytes the bus returned between `pre` and `post`.
pub open spec fn new_replies<B: Bus>(pre: Z80<B>, post: Z80<B>) -> Seq<u8> {
    post.replies@.skip(pre.replies@.len() as int)
}

/// `post` is what `out` describes, `t` its T-states, and the bus replies of
/// `pre` are a prefix of those of `post`.
pub open spec fn stepped<B: Bus>(pre: Z80<B>, post: Z80<B>, t: u32, out: (Machine, u32)) -> bool {
    &&& pre.replies@.is_prefix_of(post.replies@)
    &&& post.m() == out.0
    &&& t == out.1
}

/// As [`stepped`], for a handler that can stop with a [`Fault`].
pub open spec fn stepped_res<B: Bus>(
    pre: Z80<B>,
    post: Z80<B>,
    r: Result<u32, Fault>,
    out: (Machine, Result<u32, Fault>),
) -> bool {
    &&& pre.replies@.is_prefix_of(post.replies@)
    &&& post.m() == out.0
    &&& r == out.1
}

/// Bus replies compose: what came back from `a` to `c` is what came back
/// from `a` to `b` followed by what came back from `b` to `c`.
pub proof fn lemma_replies_chain(a: Seq<u8>, b: Seq<u8>, c: Seq<u8>)
    requires
        a.is_prefix_of(b),
        b.is_prefix_of(c),
    ensures
        a.is_prefix_of(c),
        c.skip(a.len() as int) =~= b.skip(a.len() as int) + c.skip(b.len() as int),
{
    assert(c.subrange(0, a.len() as int) =~= b.subrange(0, a.len() as int));
}

/// After one reply `v`, the rest: the first new reply is `v`, and dropping it
/// gives the replies after it.
pub proof fn lemma_replies_push(a: Seq<u8>, v: u8, c: Seq<u8>)
    requires
        a.push(v).is_prefix_of(c),
    ensures
        a.is_prefix_of(c),
        c.skip(a.len() as int)[0] == v,
        c.skip(a.len() as int).skip(1) =~= c.skip(a.len() + 1 as int),
        c.skip(a.len() as int).len() >= 1,
{
    assert(c.subrange(0, a.len() as int) =~= a.push(v).subrange(0, a.len() as int));
    assert(c[a.len() as int] == a.push(v)[a.len() as int]);
}

impl<B: Bus> Z80<B> {
    /// The processor state, as [`Z80::capture_state`] returns it.
    pub open spec fn state(&self) -> CpuState {
        CpuState {
            a: self.a,
            f: self.f@,
            b: self.b,
            c: self.c,
            d: self.d,
            e: self.e,
            h: self.h,
            l: self.l,
            ix: self.ix,
            iy: self.iy,
            sp: self.sp,
            pc: self.pc,
            wz: self.wz,
            i: self.i,
            r: self.r,
            iff1: self.iff1,
            iff2: self.iff2,
            im: self.im,
            af_alt: self.af_,
            bc_alt: self.bc_,
            de_alt: self.de_,
            hl_alt: self.hl_,
            q: self.q,
            halted: self.halted,
            ei_delay: self.ei_delay,
            reset_pending: self.reset_pending,
            maskable_interrupt_vector: self.pending_maskable_interrupt,
            non_maskable_interrupt_pending: self.non_maskable_interrupt_pending,
        }
    }

    pub open spec fn m(&self) -> Machine {
        Machine {
            st: self.state(),
            io_data: self.io_data,
            erratum: self.ei_nmi_iff2_erratum,
            ops: if B::obeys_bus_spec() {
                self.bus.history()
            } else {
                self.calls@
            },
            bytes: self.fetched@,
        }
    }

    pub fn new(bus: B) -> (r: Self)
        ensures
            r.state() == zero_state(),
            r.io_data == 0,
            !r.ei_nmi_iff2_erratum,
            r.fetched@ == Seq::<u8>::empty(),
            r.replies@ == Seq::<u8>::empty(),
            r.bus == bus,
    {
        Z80 {
            bus,
            a: 0,
            f: Flags::new(0),
            b: 0,
            c: 0,
            d: 0,
            e: 0,
            h: 0,
            l: 0,
            ix: 0,
            iy: 0,
            sp: 0,
            pc: 0,
            wz: 0,
            i: 0,
            r: 0,
            iff1: false,
            iff2: false,
            im: 0,
            af_: 0,
            bc_: 0,
            de_: 0,
            hl_: 0,
            q: 0,
            io_data: 0,
            halted: false,
            ei_delay: 0,
            ei_nmi_iff2_erratum: false,
            reset_pending: false,
            pending_maskable_interrupt: None,
            non_maskable_interrupt_pending: false,
            fetched: Vec::new(),
            replies: Ghost(Seq::empty()),
            calls: Ghost(Seq::empty()),
        }
    }

    /// The bytes the most recent instruction occupied, in address order.
    pub fn last_instruction_bytes(&self) -> (r: &[u8])
        ensures
            r@ == self.fetched@,
    {
        self.fetched.as_slice()
    }

    pub fn mem_read(&mut self, addr: u16) -> (v: u8)
        ensures
            host_kept(old(self).bus, final(self).bus),
            final(self).m() == logged(old(self).m(), rd(addr, v)),
            final(self).replies@ == old(self).replies@.push(v),
    {
        let v = self.bus.read_byte(addr);
        proof {
            self.replies@ = self.replies@.push(v);
            self.calls@ = self.calls@.push(rd(addr, v));
        }
        v
    }

    pub fn mem_write(&mut self, addr: u16, value: u8)
        ensures
            host_kept(old(self).bus, final(self).bus),
            final(self).m() == logged(old(self).m(), wr(addr, value)),
            final(self).replies@ == old(self).replies@,
    {
        self.bus.write_byte(addr, value);
        proof {
            self.calls@ = self.calls@.push(wr(addr, value));
        }
    }

    pub fn port_read(&mut self, addr: u16) -> (v: u8)
        ensures
            host_kept(old(self).bus, final(self).bus),
            final(self).m() == logged(old(self).m(), pin(addr, v)),
            final(self).replies@ == old(self).replies@.push(v),
    {
        let v = self.bus.read_port(addr);
        proof {
            self.replies@ = self.replies@.push(v);
            self.calls@ = self.calls@.push(pin(addr, v));
        }
        v
    }

    pub fn port_write(&mut self, addr: u16, value: u8)
        ensures
            host_kept(old(self).bus, final(self).bus),
            final(self).m() == logged(old(self).m(), pout(addr, value)),
            final(self).replies@ == old(self).replies@,
    {
        self.bus.write_port(addr, value);
        proof {
            self.calls@ = self.calls@.push(pout(addr, value));
        }
    }

    pub fn note_fetched(&mut self, value: u8)
        ensures
            host_kept(old(self).bus, final(self).bus),
            final(self).m() == (Machine { bytes: old(self).m().bytes.push(value), ..old(self).m() }),
            final(self).replies@ == old(self).replies@,
    {
        self.fetched.push(value);
    }

    pub fn inc_r(&mut self)
        ensures
            host_kept(old(self).bus, final(self).bus),
            final(self).m() == with_st(old(self).m(), CpuState { r: next_r(old(self).r), ..old(self).state() }),
            final(self).replies@ == old(self).replies@,
    {
        // R counts M1 (opcode fetch) cycles in its low 7 bits; bit 7 is only ever
        // written by LD R,A and is preserved across the increment.
        self.r = (self.r & 0x80) | (self.r.wrapping_add(1) & 0x7F);
    }

    pub fn update_q(&mut self, flags_modified: bool)
        ensures
            host_kept(old(self).bus, final(self).bus),
            final(self).m() == (if flags_modified {
                q_set(old(self).m())
            } else {
                q_clear(old(self).m())
            }),
            final(self).replies@ == old(self).replies@,
    {
        // Q mirrors the ALU's last flag output: the new F when this instruction wrote
        // flags, else 0. Only SCF/CCF read it (undocumented X/Y).
        self.q = if flags_modified {
            self.f.byte()
        } else {
            0
        };
    }

    // An opcode or prefix fetch is an M1 cycle and bumps R; operand and
    // displacement bytes (read_operand_byte) are ordinary reads and do not.
    pub fn fetch_byte(&mut self) -> (v: u8)
        ensures
            host_kept(old(self).bus, final(self).bus),
            final(self).m() == fetched(old(self).m(), v),
            final(self).replies@ == old(self).replies@.push(v),
    {
        let pc = self.pc;
        let value = self.mem_read(pc);
        self.pc = self.pc.wrapping_add(1);
        self.inc_r();
        self.note_fetched(value);
        value
    }

    pub fn read_operand_byte(&mut self) -> (v: u8)
        ensures
            host_kept(old(self).bus, final(self).bus),
            final(self).m() == operand(old(self).m(), v),
            final(self).replies@ == old(self).replies@.push(v),
    {
        let pc = self.pc;
        let value = self.mem_read(pc);
        self.pc = self.pc.wrapping_add(1);
        self.note_fetched(value);
        value
    }

    pub fn read_operand_word(&mut self) -> (w: u16)
        ensures
            host_kept(old(self).bus, final(self).bus),
            final(self).m() == operand2(old(self).m(), lo(w), hi(w)),
            final(self).replies@ == old(self).replies@.push(lo(w)).push(hi(w)),
    {
        let low = self.read_operand_byte();
        let high = self.read_operand_byte();
        proof {
            lemma_word(high, low, 0);
        }
        ((high as u16) << 8u16) | (low as u16)
    }

    pub fn push_word(&mut self, value: u16)
        ensures
            host_kept(old(self).bus, final(self).bus),
            final(self).m() == pushed(old(self).m(), value),
            final(self).replies@ == old(self).replies@,
    {
        self.sp = self.sp.wrapping_sub(1);
        let sp1 = self.sp;
        self.mem_write(sp1, (value >> 8u16) as u8);
        self.sp = self.sp.wrapping_sub(1);
        let sp2 = self.sp;
        self.mem_write(sp2, value as u8);
        assert(self.m().ops =~= old(self).m().ops + seq![wr(sp1, hi(value)), wr(sp2, lo(value))]);
    }

    pub fn pop_word(&mut self) -> (w: u16)
        ensures
            host_kept(old(self).bus, final(self).bus),
            final(self).m() == popped(old(self).m(), lo(w), hi(w)),
            final(self).replies@ == old(self).replies@.push(lo(w)).push(hi(w)),
    {
        let sp0 = self.sp;
        let low = self.mem_read(sp0);
        self.sp = self.sp.wrapping_add(1);
        let sp1 = self.sp;
        let high = self.mem_read(sp1);
        self.sp = self.sp.wrapping_add(1);
        proof {
            lemma_word(high, low, 0);
        }
        assert(self.m().ops =~= old(self).m().ops + seq![rd(sp0, low), rd(sp1, high)]);
        ((high as u16) << 8u16) | (low as u16)
    }

    pub fn hl(&self) -> (r: u16)
        ensures
            r == hl(self.state()),
    {
        ((self.h as u16) << 8u16) | (self.l as u16)
    }

    pub fn bc(&self) -> (r: u16)
        ensures
            r == bc(self.state()),
    {
        ((self.b as u16) << 8u16) | (self.c as u16)
    }

    pub fn de(&self) -> (r: u16)
        ensures
            r == de(self.state()),
    {
        ((self.d as u16) << 8u16) | (self.e as u16)
    }

    pub fn read_pair(&self, index: u8) -> (r: u16)
        ensures
            r == pair(self.state(), index),
    {
        if index == 0 {
            return self.bc();
        }
        if index == 1 {
            return self.de();
        }
        if index == 2 {
            return self.hl();
        }
        self.sp
    }

    pub fn write_pair(&mut self, index: u8, value: u16)
        ensures
            host_kept(old(self).bus, final(self).bus),
            final(self).m() == with_st(old(self).m(), set_pair(old(self).state(), index, value)),
            final(self).replies@ == old(self).replies@,
    {
        if index == 0 {
            self.b = (value >> 8u16) as u8;
            self.c = value as u8;
        } else if index == 1 {
            self.d = (value >> 8u16) as u8;
            self.e = value as u8;
        } else if index == 2 {
            self.h = (value >> 8u16) as u8;
            self.l = value as u8;
        } else {
            self.sp = value;
        }
    }

    pub fn read_reg(&self, index: u8) -> (r: u8)
        requires
            index < 8,
            index != 6,
        ensures
            r == reg(self.state(), index),
    {
        match index {
            0 => self.b,
            1 => self.c,
            2 => self.d,
            3 => self.e,
            4 => self.h,
            5 => self.l,
            _ => self.a,
        }
    }

    pub fn write_reg(&mut self, index: u8, value: u8)
        requires
            index < 8,
            index != 6,
        ensures
            host_kept(old(self).bus, final(self).bus),
            final(self).m() == with_st(old(self).m(), set_reg(old(self).state(), index, value)),
            final(self).replies@ == old(self).replies@,
    {
        match index {
            0 => self.b = value,
            1 => self.c = value,
            2 => self.d = value,
            3 => self.e = value,
            4 => self.h = value,
            5 => self.l = value,
            _ => self.a = value,
        }
    }
}

} // verus!
