//! Conformance kit: run a manifest on this core and produce its trace.
//!
//! A manifest fully determines a run: memory contents, initial processor
//! state, the host profile, when lifecycle requests arrive, and when to
//! stop. [`ConformanceHost`] is the one host every run uses, so any
//! difference between two traces is a difference between the CPUs.
//!
//! The run itself alternates decisions with outside work (handing each
//! record to a sink, writing checkpoints). The decisions are here, as
//! [`TraceRunner`]: at each boundary it applies the due events, the CP/M
//! traps and the stop checks, and says whether to stop or to record the
//! next step; the caller does the outside work in between.

use vstd::prelude::*;
use vstd::string::StringExecFns;

pub use crate::manifest::{manifest_file_refs, manifest_from_json, state_from_json};

use crate::det::{answered_upto, lemma_boundary_determined, lemma_upto_prefix, mem_at};
use crate::cpu::{lemma_step_ops, can_accept_int, sem_step};
use crate::processor::{host_kept, new_replies, pin, pout, rd, wr, BusKind, BusOp, stepped_res, with_st, word, Bus, Fault, Machine, Z80};
use crate::state::CpuState;
use crate::text::{append_decimal, decimal};

verus! {

/// The version of the manifest schema this kit reads.
pub const MANIFEST_SCHEMA_VERSION: u64 = 1;

/// The BDOS entry point the `cpm-minimal` profile traps.
pub const BDOS_ENTRY: u16 = 0x0005;

/// The warm-boot address the `cpm-minimal` profile treats as program exit.
pub const WARM_BOOT: u16 = 0x0000;

/// The size of the host's address space.
pub const MEMORY_SIZE: usize = 0x10000;

#[derive(Clone, Copy, Debug, PartialEq, Eq, Structural)]
pub enum HostProfile {
    /// 64 KiB RAM, every port read returns `port_read_value`, writes discarded.
    Flat,
    /// `Flat` plus the two CP/M traps the ZEX exercisers need.
    CpmMinimal,
}

#[derive(Clone, Copy, Debug, PartialEq, Eq, Structural)]
pub enum EventKind {
    Nmi,
    Int,
    IntClear,
    Reset,
    ResetClear,
}

/// Bytes to place at `address` before the run starts.
#[derive(Clone, Debug, PartialEq, Eq)]
pub struct MemorySegment {
    pub address: u16,
    pub data: Vec<u8>,
}

/// A host lifecycle request applied immediately before boundary `at_step`.
#[derive(Clone, Copy, Debug, PartialEq, Eq, Structural)]
pub struct Event {
    pub at_step: u64,
    pub kind: EventKind,
    pub vector: u8,
}

/// When the run ends. `max_steps` is mandatory so every run is finite.
#[derive(Clone, Debug, PartialEq, Eq)]
pub struct StopRule {
    pub max_steps: u64,
    pub on_halt: bool,
    pub at_pc: Vec<u16>,
}

/// A complete, deterministic description of one conformance run.
#[derive(Clone, Debug, PartialEq, Eq)]
pub struct Manifest {
    pub name: String,
    pub host: HostProfile,
    pub port_read_value: u8,
    pub memory: Vec<MemorySegment>,
    pub initial: CpuState,
    pub events: Vec<Event>,
    pub stop: StopRule,
}

/// Every segment lies below the end of the address space.
pub open spec fn segments_fit(segments: Seq<MemorySegment>) -> bool {
    forall|i: int| 0 <= i < segments.len() ==> segments[i].address + segments[i].data.len() <= MEMORY_SIZE
}

/// `mem` with `seg` copied in at its address.
pub open spec fn apply_segment(mem: Seq<u8>, seg: MemorySegment) -> Seq<u8> {
    Seq::new(
        mem.len(),
        |i: int|
            if seg.address <= i < seg.address + seg.data.len() {
                seg.data@[i - seg.address]
            } else {
                mem[i]
            },
    )
}

/// Zeroed memory with the segments copied in, in order (a later segment
/// overwrites an earlier one where they overlap).
pub open spec fn loaded_memory(segments: Seq<MemorySegment>) -> Seq<u8>
    decreases segments.len(),
{
    if segments.len() == 0 {
        Seq::new(MEMORY_SIZE as nat, |i: int| 0u8)
    } else {
        apply_segment(loaded_memory(segments.drop_last()), segments.last())
    }
}

proof fn lemma_loaded_len(segments: Seq<MemorySegment>)
    ensures
        loaded_memory(segments).len() == MEMORY_SIZE,
    decreases segments.len(),
{
    if segments.len() > 0 {
        lemma_loaded_len(segments.drop_last());
    }
}

/// `mem` with the memory writes among `ops` applied, in order.
pub open spec fn replay(mem: Seq<u8>, ops: Seq<BusOp>) -> Seq<u8>
    decreases ops.len(),
{
    if ops.len() == 0 {
        mem
    } else {
        let before = replay(mem, ops.drop_last());
        let op = ops.last();
        if op.kind == BusKind::MemWrite {
            before.update(op.addr as int, op.value)
        } else {
            before
        }
    }
}

/// Every read among `ops` was answered as a host that started from memory
/// `mem` and port value `port` answers it: a memory read with the byte the
/// memory held then, the earlier writes applied; a port read with `port`.
pub open spec fn reads_answered(mem: Seq<u8>, port: u8, ops: Seq<BusOp>) -> bool
    decreases ops.len(),
{
    if ops.len() == 0 {
        true
    } else {
        let before = ops.drop_last();
        let op = ops.last();
        &&& reads_answered(mem, port, before)
        &&& op.kind == BusKind::MemRead ==> op.value == replay(mem, before)[op.addr as int]
        &&& op.kind == BusKind::PortRead ==> op.value == port
    }
}

/// Each read among `ops` was answered from the memory the writes before it
/// left, or with the port value.
pub proof fn lemma_reads_answered_at(mem: Seq<u8>, port: u8, ops: Seq<BusOp>, i: int)
    requires
        reads_answered(mem, port, ops),
        0 <= i < ops.len(),
    ensures
        ops[i].kind == BusKind::MemRead ==> ops[i].value == replay(mem, ops.take(i))[ops[i].addr as int],
        ops[i].kind == BusKind::PortRead ==> ops[i].value == port,
    decreases ops.len(),
{
    if i < ops.len() - 1 {
        lemma_reads_answered_at(mem, port, ops.drop_last(), i);
        assert(ops.drop_last().take(i) =~= ops.take(i));
    } else {
        assert(ops.take(i) =~= ops.drop_last());
    }
}

/// Reads answered as a host starting from `mem` answers them, counted from
/// exchange `n` of `ops`: the same facts, position by position, with the
/// memory after them.
pub proof fn lemma_reads_to_answered(mem: Seq<u8>, port: u8, ops: Seq<BusOp>, n: int)
    requires
        0 <= n <= ops.len(),
        reads_answered(mem, port, ops.skip(n)),
    ensures
        answered_upto(mem, port, ops, n, ops.len() as int),
        replay(mem, ops.skip(n)) == mem_at(mem, ops, n, ops.len() as int),
    decreases ops.len(),
{
    if ops.len() == n {
        assert(ops.skip(n) =~= Seq::<BusOp>::empty());
    } else {
        let d = ops.drop_last();
        assert(ops.skip(n).drop_last() =~= d.skip(n));
        assert(ops.skip(n).last() == ops[ops.len() - 1]);
        lemma_reads_to_answered(mem, port, d, n);
        lemma_upto_prefix(mem, port, d, ops, n, d.len() as int);
    }
}

/// The one host every conformance run uses: 64 KiB of RAM, a fixed value
/// for every port read, port writes discarded, and the CP/M console output
/// the traps captured.
pub struct ConformanceHost {
    pub memory: Box<[u8; 0x10000]>,
    pub port_read_value: u8,
    pub output: Vec<u8>,
    /// Every exchange the core has made with this host, in order.
    pub exchanges: Ghost<Seq<BusOp>>,
}

impl ConformanceHost {
    /// The host for `manifest`: zeroed RAM with its segments loaded, its
    /// port value, and no output yet.
    pub fn new(manifest: &Manifest) -> (r: Self)
        requires
            segments_fit(manifest.memory@),
        ensures
            r.memory@ == loaded_memory(manifest.memory@),
            r.output@ == Seq::<u8>::empty(),
            r.port_read_value == manifest.port_read_value,
            r.exchanges@ == Seq::<BusOp>::empty(),
    {
        let mut memory: [u8; 0x10000] = [0u8; 0x10000];
        assert(memory@ =~= loaded_memory(manifest.memory@.take(0)));
        let mut k: usize = 0;
        while k < manifest.memory.len()
            invariant
                k <= manifest.memory.len(),
                segments_fit(manifest.memory@),
                memory@ == loaded_memory(manifest.memory@.take(k as int)),
            decreases manifest.memory.len() - k,
        {
            let segment = &manifest.memory[k];
            let start = segment.address as usize;
            let ghost before = memory@;
            let mut j: usize = 0;
            while j < segment.data.len()
                invariant
                    j <= segment.data.len(),
                    start + segment.data.len() <= MEMORY_SIZE,
                    start == segment.address,
                    before.len() == MEMORY_SIZE,
                    forall|i: int|
                        0 <= i < MEMORY_SIZE ==> #[trigger] memory@[i] == if start <= i < start + j {
                            segment.data@[i - start]
                        } else {
                            before[i]
                        },
                decreases segment.data.len() - j,
            {
                memory[start + j] = segment.data[j];
                j += 1;
            }
            proof {
                let t = manifest.memory@.take(k + 1);
                assert(t.drop_last() =~= manifest.memory@.take(k as int));
                assert(t.last() == *segment);
                lemma_loaded_len(manifest.memory@.take(k as int));
                assert(memory@ =~= apply_segment(before, *segment));
            }
            k += 1;
        }
        assert(manifest.memory@.take(manifest.memory.len() as int) =~= manifest.memory@);
        ConformanceHost {
            memory: Box::new(memory),
            port_read_value: manifest.port_read_value,
            output: Vec::new(),
            exchanges: Ghost(Seq::empty()),
        }
    }
}

impl Bus for ConformanceHost {
    open spec fn obeys_bus_spec() -> bool {
        true
    }

    open spec fn history(&self) -> Seq<BusOp> {
        self.exchanges@
    }

    /// Since `start`: the history has only grown, the port value and the
    /// output are unchanged, every read was answered from `start`'s memory
    /// with the writes made before it applied (a port read with the port
    /// value), and the memory is `start`'s with the writes applied.
    open spec fn inv(&self, start: &Self) -> bool {
        let since = self.exchanges@.skip(start.exchanges@.len() as int);
        &&& start.exchanges@.is_prefix_of(self.exchanges@)
        &&& self.port_read_value == start.port_read_value
        &&& self.output@ == start.output@
        &&& self.memory@ == replay(start.memory@, since)
        &&& reads_answered(start.memory@, start.port_read_value, since)
    }

    fn read_byte(&mut self, addr: u16) -> (r: u8)
        ensures
            r == old(self).memory@[addr as int],
            final(self).memory == old(self).memory,
            final(self).port_read_value == old(self).port_read_value,
            final(self).output == old(self).output,
    {
        let r = self.memory[addr as usize];
        proof {
            let ghost before = self.exchanges@;
            self.exchanges@ = before.push(rd(addr, r));
            assert forall|start: ConformanceHost| old(self).inv(&start) implies #[trigger] self.inv(&start) by {
                let n = start.exchanges@.len() as int;
                assert(self.exchanges@.skip(n) =~= before.skip(n).push(rd(addr, r)));
                assert(before.skip(n).push(rd(addr, r)).drop_last() =~= before.skip(n));
            }
        }
        r
    }

    fn write_byte(&mut self, addr: u16, value: u8)
        ensures
            final(self).memory@ == old(self).memory@.update(addr as int, value),
            final(self).port_read_value == old(self).port_read_value,
            final(self).output == old(self).output,
    {
        self.memory[addr as usize] = value;
        proof {
            let ghost before = self.exchanges@;
            self.exchanges@ = before.push(wr(addr, value));
            assert forall|start: ConformanceHost| old(self).inv(&start) implies #[trigger] self.inv(&start) by {
                let n = start.exchanges@.len() as int;
                assert(self.exchanges@.skip(n) =~= before.skip(n).push(wr(addr, value)));
                assert(before.skip(n).push(wr(addr, value)).drop_last() =~= before.skip(n));
            }
        }
    }

    fn read_port(&mut self, addr: u16) -> (r: u8)
        ensures
            r == old(self).port_read_value,
            final(self).memory == old(self).memory,
            final(self).port_read_value == old(self).port_read_value,
            final(self).output == old(self).output,
    {
        let r = self.port_read_value;
        proof {
            let ghost before = self.exchanges@;
            self.exchanges@ = before.push(pin(addr, r));
            assert forall|start: ConformanceHost| old(self).inv(&start) implies #[trigger] self.inv(&start) by {
                let n = start.exchanges@.len() as int;
                assert(self.exchanges@.skip(n) =~= before.skip(n).push(pin(addr, r)));
                assert(before.skip(n).push(pin(addr, r)).drop_last() =~= before.skip(n));
            }
        }
        r
    }

    fn write_port(&mut self, addr: u16, value: u8)
        ensures
            final(self).memory == old(self).memory,
            final(self).port_read_value == old(self).port_read_value,
            final(self).output == old(self).output,
    {
        proof {
            let ghost before = self.exchanges@;
            self.exchanges@ = before.push(pout(addr, value));
            assert forall|start: ConformanceHost| old(self).inv(&start) implies #[trigger] self.inv(&start) by {
                let n = start.exchanges@.len() as int;
                assert(self.exchanges@.skip(n) =~= before.skip(n).push(pout(addr, value)));
                assert(before.skip(n).push(pout(addr, value)).drop_last() =~= before.skip(n));
            }
        }
    }
}

/// Why a run ended.
#[derive(Clone, Debug, PartialEq, Eq, Structural)]
pub enum StopReason {
    MaxSteps,
    CpmExit,
    AtPc,
    Halted,
    /// The core stopped with a fault; the trace ends here.
    Fault(Fault),
}

impl StopReason {
    pub open spec fn name(self) -> Seq<char> {
        match self {
            StopReason::MaxSteps => "max_steps"@,
            StopReason::CpmExit => "cpm_exit"@,
            StopReason::AtPc => "at_pc"@,
            StopReason::Halted => "halted"@,
            StopReason::Fault(_) => "fault"@,
        }
    }

    pub fn as_str(&self) -> (r: &'static str)
        ensures
            r@ == self.name(),
    {
        match self {
            StopReason::MaxSteps => "max_steps",
            StopReason::CpmExit => "cpm_exit",
            StopReason::AtPc => "at_pc",
            StopReason::Halted => "halted",
            StopReason::Fault(_) => "fault",
        }
    }
}

/// Why a run ended, plus anything the host captured.
#[derive(Clone, Debug, PartialEq, Eq)]
pub struct TraceRun {
    pub steps: u64,
    pub t_states: u64,
    pub reason: StopReason,
    pub output: Vec<u8>,
}

/// `std::io::Error`, carried opaquely in [`RunError::Io`]: the run's
/// caller reports its sink's failures through it.
#[verifier::external_type_specification]
#[verifier::external_body]
pub struct ExIoError(std::io::Error);

/// Why a run could not go on.
#[derive(Debug)]
pub enum RunError {
    /// `cpm-minimal` saw a BDOS function it does not support.
    UnsupportedBdosFunction(u8),
    Io(std::io::Error),
}

/// The `Display` text of an I/O error, through `format!`. Nothing is stated
/// of it: for an error from the operating system the text comes from the
/// system.
#[verifier::external_body]
fn io_error_text(error: &std::io::Error) -> String {
    format!("{}", error)
}

impl RunError {
    /// The error's message: for an unsupported BDOS function, its number in
    /// decimal; for an I/O error, the error's own text.
    pub fn message(&self) -> (r: String)
        ensures
            self matches RunError::UnsupportedBdosFunction(f) ==> r@ == "cpm-minimal: unsupported BDOS function "@
                + decimal(f as nat) + " at PC 0x0005"@,
    {
        match self {
            RunError::UnsupportedBdosFunction(function) => {
                let mut m = String::from_str("cpm-minimal: unsupported BDOS function ");
                append_decimal(&mut m, *function as u64);
                m.append(" at PC 0x0005");
                m
            },
            RunError::Io(error) => io_error_text(error),
        }
    }
}

impl From<std::io::Error> for RunError {
    fn from(error: std::io::Error) -> (r: Self) {
        RunError::Io(error)
    }
}

impl vstd::std_specs::convert::FromSpecImpl<std::io::Error> for RunError {
    open spec fn obeys_from_spec() -> bool {
        true
    }

    open spec fn from_spec(error: std::io::Error) -> Self {
        RunError::Io(error)
    }
}

/// What a trap did: whether to stop (or the error), the processor state
/// after it, and the console bytes it produced.
pub struct TrapOutcome {
    pub result: Result<bool, u8>,
    pub state: CpuState,
    pub output: Seq<u8>,
}

/// The `$`-terminated string BDOS function 9 prints from `addr`, looking at
/// no more than `fuel` bytes.
pub open spec fn bdos_text(mem: Seq<u8>, addr: u16, fuel: nat) -> Seq<u8>
    decreases fuel,
{
    if fuel == 0 || mem[addr as int] == 0x24 {
        Seq::empty()
    } else {
        seq![mem[addr as int]] + bdos_text(mem, addr.wrapping_add(1), (fuel - 1) as nat)
    }
}

/// Memory holds a `$` somewhere, so a BDOS function 9 string ends.
pub open spec fn has_terminator(mem: Seq<u8>) -> bool {
    exists|i: int| 0 <= i < mem.len() && mem[i] == 0x24
}

/// The return from a BDOS call: the address on the stack is popped into PC.
pub open spec fn bdos_return(s: CpuState, mem: Seq<u8>) -> CpuState {
    CpuState {
        sp: s.sp.wrapping_add(2),
        pc: word(mem[s.sp.wrapping_add(1) as int], mem[s.sp as int]),
        ..s
    }
}

/// The `cpm-minimal` traps at the current PC: PC 0x0000 ends the run; PC
/// 0x0005 performs BDOS function C (0 ends the run, 2 prints E, 9 prints
/// the bytes from DE up to `$`) and returns to the caller; any other BDOS
/// function is an error (given by its number) that changes nothing.
pub open spec fn cpm_trap(s: CpuState, mem: Seq<u8>) -> TrapOutcome {
    if s.pc == WARM_BOOT {
        TrapOutcome { result: Ok(true), state: s, output: Seq::empty() }
    } else if s.pc != BDOS_ENTRY {
        TrapOutcome { result: Ok(false), state: s, output: Seq::empty() }
    } else if s.c == 0 {
        TrapOutcome { result: Ok(true), state: s, output: Seq::empty() }
    } else if s.c == 2 {
        TrapOutcome { result: Ok(false), state: bdos_return(s, mem), output: seq![s.e] }
    } else if s.c == 9 {
        TrapOutcome {
            result: Ok(false),
            state: bdos_return(s, mem),
            output: bdos_text(mem, word(s.d, s.e), MEMORY_SIZE as nat),
        }
    } else {
        TrapOutcome { result: Err(s.c), state: s, output: Seq::empty() }
    }
}

/// `r` is the result the trap outcome `o` describes.
pub open spec fn trap_result(r: Result<bool, RunError>, o: TrapOutcome) -> bool {
    match o.result {
        Ok(b) => r == Ok::<bool, RunError>(b),
        Err(f) => r matches Err(RunError::UnsupportedBdosFunction(g)) && g == f,
    }
}

/// Apply the `cpm-minimal` traps at the current PC; `Ok(true)` means stop.
///
/// PC == 0x0000 ends the run; PC == 0x0005 performs BDOS function C (0
/// ends the run, 2 appends E, 9 appends bytes from DE up to `$`), then pops
/// the return address into PC. Function 9 never returns when memory holds
/// no `$`, so that input is left out.
pub fn handle_cpm_trap(cpu: &mut Z80<ConformanceHost>) -> (r: Result<bool, RunError>)
    requires
        old(cpu).pc == BDOS_ENTRY && old(cpu).c == 9 ==> has_terminator(old(cpu).bus.memory@),
    ensures
        trap_result(r, cpm_trap(old(cpu).state(), old(cpu).bus.memory@)),
        final(cpu).m() == with_st(old(cpu).m(), cpm_trap(old(cpu).state(), old(cpu).bus.memory@).state),
        final(cpu).bus.memory@ == old(cpu).bus.memory@,
        final(cpu).bus.output@ == old(cpu).bus.output@ + cpm_trap(old(cpu).state(), old(cpu).bus.memory@).output,
        final(cpu).bus.port_read_value == old(cpu).bus.port_read_value,
        final(cpu).replies@ == old(cpu).replies@,
{
    if cpu.pc == WARM_BOOT {
        assert(old(cpu).bus.output@ + Seq::<u8>::empty() =~= old(cpu).bus.output@);
        return Ok(true);
    }
    if cpu.pc != BDOS_ENTRY {
        assert(old(cpu).bus.output@ + Seq::<u8>::empty() =~= old(cpu).bus.output@);
        return Ok(false);
    }
    bdos_call(cpu)
}

/// The BDOS function part of [`handle_cpm_trap`].
fn bdos_call(cpu: &mut Z80<ConformanceHost>) -> (r: Result<bool, RunError>)
    requires
        old(cpu).pc == BDOS_ENTRY,
        old(cpu).c == 9 ==> has_terminator(old(cpu).bus.memory@),
    ensures
        trap_result(r, cpm_trap(old(cpu).state(), old(cpu).bus.memory@)),
        final(cpu).m() == with_st(old(cpu).m(), cpm_trap(old(cpu).state(), old(cpu).bus.memory@).state),
        final(cpu).bus.memory@ == old(cpu).bus.memory@,
        final(cpu).bus.output@ == old(cpu).bus.output@ + cpm_trap(old(cpu).state(), old(cpu).bus.memory@).output,
        final(cpu).bus.port_read_value == old(cpu).bus.port_read_value,
        final(cpu).replies@ == old(cpu).replies@,
{
    let function = cpu.c;
    if function == 0 {
        assert(old(cpu).bus.output@ + Seq::<u8>::empty() =~= old(cpu).bus.output@);
        return Ok(true);
    }
    if function == 2 {
        let e = cpu.e;
        cpu.bus.output.push(e);
        assert(cpu.bus.output@ =~= old(cpu).bus.output@ + seq![e]);
    } else if function == 9 {
        let mut address: u16 = ((cpu.d as u16) << 8u16) | (cpu.e as u16);
        let mut fuel: usize = MEMORY_SIZE;
        let ghost mem = cpu.bus.memory@;
        let ghost out0 = cpu.bus.output@;
        proof {
            assert(cpu.bus.output@ + bdos_text(mem, address, fuel as nat) =~= out0 + bdos_text(mem, address, fuel as nat));
        }
        while fuel > 0
            invariant
                cpu.bus.memory@ == mem,
                mem == old(cpu).bus.memory@,
                cpu.m() == old(cpu).m(),
                cpu.replies@ == old(cpu).replies@,
                cpu.bus.port_read_value == old(cpu).bus.port_read_value,
                mem.len() == MEMORY_SIZE,
                fuel <= MEMORY_SIZE,
                cpu.bus.output@ + bdos_text(mem, address, fuel as nat) == out0 + bdos_text(
                    mem,
                    word(old(cpu).d, old(cpu).e),
                    MEMORY_SIZE as nat,
                ),
            ensures
                cpu.bus.memory@ == mem,
                cpu.m() == old(cpu).m(),
                cpu.replies@ == old(cpu).replies@,
                cpu.bus.port_read_value == old(cpu).bus.port_read_value,
                cpu.bus.output@ == out0 + bdos_text(mem, word(old(cpu).d, old(cpu).e), MEMORY_SIZE as nat),
            decreases fuel,
        {
            let value = cpu.bus.memory[address as usize];
            if value == 0x24 {
                assert(cpu.bus.output@ + bdos_text(mem, address, fuel as nat) =~= cpu.bus.output@);
                break;
            }
            let ghost before = cpu.bus.output@;
            cpu.bus.output.push(value);
            proof {
                assert(bdos_text(mem, address, fuel as nat) == seq![value] + bdos_text(mem, address.wrapping_add(1), (fuel - 1) as nat));
                assert(cpu.bus.output@ + bdos_text(mem, address.wrapping_add(1), (fuel - 1) as nat) =~= before + bdos_text(mem, address, fuel as nat));
            }
            address = address.wrapping_add(1);
            fuel -= 1;
        }
    } else {
        assert(old(cpu).bus.output@ + Seq::<u8>::empty() =~= old(cpu).bus.output@);
        return Err(RunError::UnsupportedBdosFunction(function));
    }
    let low = cpu.bus.memory[cpu.sp as usize];
    let high = cpu.bus.memory[cpu.sp.wrapping_add(1) as usize];
    cpu.sp = cpu.sp.wrapping_add(2);
    cpu.pc = ((high as u16) << 8u16) | (low as u16);
    Ok(false)
}

/// The processor state after a lifecycle event is applied.
pub open spec fn event_state(s: CpuState, event: Event) -> CpuState {
    match event.kind {
        EventKind::Nmi => CpuState { non_maskable_interrupt_pending: true, ..s },
        EventKind::Int => CpuState { maskable_interrupt_vector: Some(event.vector), ..s },
        EventKind::IntClear => CpuState { maskable_interrupt_vector: None, ..s },
        EventKind::Reset => CpuState { reset_pending: true, ..s },
        EventKind::ResetClear => CpuState { reset_pending: false, ..s },
    }
}

/// Apply one lifecycle event as the matching request or clear.
pub fn apply_event(cpu: &mut Z80<ConformanceHost>, event: Event)
    ensures
        final(cpu).m() == with_st(old(cpu).m(), event_state(old(cpu).state(), event)),
        final(cpu).bus == old(cpu).bus,
        final(cpu).replies@ == old(cpu).replies@,
{
    match event.kind {
        EventKind::Nmi => cpu.request_non_maskable_interrupt(),
        EventKind::Int => cpu.request_maskable_interrupt(event.vector),
        EventKind::IntClear => cpu.clear_maskable_interrupt(),
        EventKind::Reset => cpu.request_reset(),
        EventKind::ResetClear => cpu.clear_reset(),
    }
}

/// What happened at a boundary.
#[derive(Clone, Copy, Debug, PartialEq, Eq, Structural)]
pub enum BoundaryKind {
    /// An instruction was fetched and executed.
    Instruction,
    /// A halted CPU idled for one cycle.
    Halted,
    /// A held RESET was applied.
    Reset,
    /// A non-maskable interrupt was entered.
    Nmi,
    /// A maskable interrupt was entered.
    Interrupt,
}

/// The kind of boundary [`Z80::step`] takes from state `s`, in its
/// priority order.
pub open spec fn boundary_kind(s: CpuState) -> BoundaryKind {
    if s.reset_pending {
        BoundaryKind::Reset
    } else if s.non_maskable_interrupt_pending {
        BoundaryKind::Nmi
    } else if can_accept_int(s) {
        BoundaryKind::Interrupt
    } else if s.halted {
        BoundaryKind::Halted
    } else {
        BoundaryKind::Instruction
    }
}

/// One trace record: the boundary's index, kind and T-states, the address
/// it started at, the bytes of the instruction (none for the other kinds),
/// and the full processor state after it.
#[derive(Clone, Debug, PartialEq, Eq)]
pub struct StepRecord {
    pub index: u64,
    pub kind: BoundaryKind,
    pub address: u16,
    pub t_states: u32,
    pub bytes: Vec<u8>,
    pub state: CpuState,
}

/// Step `cpu` once and describe the boundary as record `index`.
pub fn step_record<B: Bus>(cpu: &mut Z80<B>, index: u64) -> (r: Result<StepRecord, Fault>)
    ensures
        stepped_res(
            *old(cpu),
            *final(cpu),
            match r {
                Ok(rec) => Ok(rec.t_states),
                Err(f) => Err(f),
            },
            sem_step(old(cpu).m(), new_replies(*old(cpu), *final(cpu))),
        ),
        host_kept(old(cpu).bus, final(cpu).bus),
        r matches Ok(rec) ==> {
            &&& rec.index == index
            &&& rec.kind == boundary_kind(old(cpu).state())
            &&& rec.address == old(cpu).pc
            &&& rec.state == final(cpu).state()
            &&& rec.bytes@ == (if rec.kind == BoundaryKind::Instruction {
                final(cpu).fetched@
            } else {
                Seq::<u8>::empty()
            })
        },
{
    let kind = if cpu.reset_pending {
        BoundaryKind::Reset
    } else if cpu.non_maskable_interrupt_pending {
        BoundaryKind::Nmi
    } else if cpu.can_accept_maskable_interrupt() {
        BoundaryKind::Interrupt
    } else if cpu.halted {
        BoundaryKind::Halted
    } else {
        BoundaryKind::Instruction
    };
    let address = cpu.pc;
    match cpu.step() {
        Ok(t_states) => {
            let bytes = match kind {
                BoundaryKind::Instruction => vstd::slice::slice_to_vec(cpu.last_instruction_bytes()),
                _ => Vec::new(),
            };
            Ok(StepRecord { index, kind, address, t_states, bytes, state: cpu.capture_state() })
        },
        Err(fault) => Err(fault),
    }
}

/// The index just past the events, from `from` on, that are due before
/// boundary `step`.
pub open spec fn due_end(events: Seq<Event>, from: int, step: u64) -> int
    decreases events.len() - from,
{
    if 0 <= from < events.len() && events[from].at_step == step {
        due_end(events, from + 1, step)
    } else {
        from
    }
}

/// The state after events `from..to` are applied in order.
pub open spec fn apply_events(s: CpuState, events: Seq<Event>, from: int, to: int) -> CpuState
    decreases to - from,
{
    if from < to {
        apply_events(event_state(s, events[from]), events, from + 1, to)
    } else {
        s
    }
}

proof fn lemma_due_end_bounds(events: Seq<Event>, from: int, step: u64)
    requires
        0 <= from <= events.len(),
    ensures
        from <= due_end(events, from, step) <= events.len(),
    decreases events.len() - from,
{
    if 0 <= from < events.len() && events[from].at_step == step {
        lemma_due_end_bounds(events, from + 1, step);
    }
}

/// Events touch only the lifecycle requests.
proof fn lemma_events_keep_registers(s: CpuState, events: Seq<Event>, from: int, to: int)
    ensures
        apply_events(s, events, from, to).pc == s.pc,
        apply_events(s, events, from, to).c == s.c,
    decreases to - from,
{
    if from < to {
        lemma_events_keep_registers(event_state(s, events[from]), events, from + 1, to);
    }
}

/// What the caller does next at a boundary.
#[derive(Clone, Debug, PartialEq, Eq, Structural)]
pub enum Boundary {
    /// The run is over.
    Stop(StopReason),
    /// Record the next step; it will be record `index`.
    Record(u64),
}

/// The run of one manifest, between boundaries.
pub struct TraceRunner {
    pub cpu: Z80<ConformanceHost>,
    pub host: HostProfile,
    pub events: Vec<Event>,
    pub next_event: usize,
    pub stop: StopRule,
    pub steps: u64,
    pub t_states: u64,
}

/// The run stops on a halted CPU only when nothing could wake it: no events
/// left and no request pending.
pub open spec fn halt_stop(on_halt: bool, s: CpuState, events_left: bool) -> bool {
    on_halt && s.halted && !events_left && !s.reset_pending && !s.non_maskable_interrupt_pending
        && s.maskable_interrupt_vector is None
}

/// The stop checks after the traps: `at_pc`, then `on_halt`, then the
/// step budget; otherwise the next step is recorded.
pub open spec fn stop_check(stop: StopRule, s: CpuState, events_left: bool, steps: u64) -> Boundary {
    if stop.at_pc@.contains(s.pc) {
        Boundary::Stop(StopReason::AtPc)
    } else if halt_stop(stop.on_halt, s, events_left) {
        Boundary::Stop(StopReason::Halted)
    } else if steps >= stop.max_steps {
        Boundary::Stop(StopReason::MaxSteps)
    } else {
        Boundary::Record(steps)
    }
}

/// A step of `pre` recorded as `r`, leaving `post`: the boundary semantics
/// on the bytes the host returned, every one of them answered from the
/// host's memory (the step's earlier writes applied) or its port value, and
/// the record describing the boundary.
pub open spec fn recorded(pre: TraceRunner, post: TraceRunner, r: Result<StepRecord, Fault>) -> bool {
    &&& stepped_res(
        pre.cpu,
        post.cpu,
        match r {
            Ok(rec) => Ok(rec.t_states),
            Err(f) => Err(f),
        },
        sem_step(pre.cpu.m(), new_replies(pre.cpu, post.cpu)),
    )
    &&& answered_upto(
        pre.cpu.bus.memory@,
        pre.cpu.bus.port_read_value,
        post.cpu.bus.exchanges@,
        pre.cpu.bus.exchanges@.len() as int,
        post.cpu.bus.exchanges@.len() as int,
    )
    &&& post.cpu.bus.inv(&pre.cpu.bus)
    &&& r matches Ok(rec) ==> {
        &&& rec.index == pre.steps
        &&& rec.kind == boundary_kind(pre.cpu.state())
        &&& rec.address == pre.cpu.pc
        &&& rec.state == post.cpu.state()
        &&& rec.bytes@ == (if rec.kind == BoundaryKind::Instruction {
            post.cpu.fetched@
        } else {
            Seq::<u8>::empty()
        })
    }
}

/// A recorded step is determined by where it starts: two steps from
/// runners whose CPUs are in the same machine state, at the same step, and
/// whose hosts hold the same memory and port value, give the same record
/// (or the same fault) and leave the same machine state and the same host
/// memory. With `TraceRunner::new` and `boundary`, whose results are fixed
/// by their arguments, a manifest determines its whole run.
pub proof fn lemma_record_determined(
    pre1: TraceRunner,
    post1: TraceRunner,
    r1: Result<StepRecord, Fault>,
    pre2: TraceRunner,
    post2: TraceRunner,
    r2: Result<StepRecord, Fault>,
)
    requires
        recorded(pre1, post1, r1),
        recorded(pre2, post2, r2),
        pre1.cpu.m() == pre2.cpu.m(),
        pre1.steps == pre2.steps,
        pre1.cpu.bus.memory@ == pre2.cpu.bus.memory@,
        pre1.cpu.bus.port_read_value == pre2.cpu.bus.port_read_value,
    ensures
        post1.cpu.m() == post2.cpu.m(),
        post1.cpu.bus.memory@ == post2.cpu.bus.memory@,
        r1 is Ok <==> r2 is Ok,
        r1 matches Err(f1) ==> r2 == Err::<StepRecord, Fault>(f1),
        r1 matches Ok(a) ==> (r2 matches Ok(b) && a.index == b.index && a.kind == b.kind && a.address == b.address
            && a.t_states == b.t_states && a.state == b.state && a.bytes@ == b.bytes@),
{
    let m = pre1.cpu.m();
    let rv1 = new_replies(pre1.cpu, post1.cpu);
    let rv2 = new_replies(pre2.cpu, post2.cpu);
    assert(post1.cpu.bus.exchanges@ == sem_step(m, rv1).0.ops);
    assert(post2.cpu.bus.exchanges@ == sem_step(m, rv2).0.ops);
    assert(pre1.cpu.bus.exchanges@ == m.ops);
    assert(pre2.cpu.bus.exchanges@ == m.ops);
    lemma_boundary_determined(m, rv1, rv2, pre1.cpu.bus.memory@, pre1.cpu.bus.port_read_value);
    assert(post1.cpu.fetched@ == post1.cpu.m().bytes);
    assert(post2.cpu.fetched@ == post2.cpu.m().bytes);
}

impl TraceRunner {
    pub open spec fn wf(&self) -> bool {
        self.next_event <= self.events.len()
    }

    /// The state the traps see at this boundary: the CPU with the due
    /// events applied.
    pub open spec fn evented(&self) -> CpuState {
        apply_events(
            self.cpu.state(),
            self.events@,
            self.next_event as int,
            due_end(self.events@, self.next_event as int, self.steps),
        )
    }

    /// A run of `manifest` that has not started: its host, its initial
    /// state restored, its events, and no steps yet.
    pub fn new(manifest: &Manifest) -> (r: Self)
        requires
            segments_fit(manifest.memory@),
        ensures
            r.wf(),
            r.cpu.state() == manifest.initial,
            r.cpu.bus.memory@ == loaded_memory(manifest.memory@),
            r.cpu.bus.output@ == Seq::<u8>::empty(),
            r.cpu.bus.port_read_value == manifest.port_read_value,
            r.host == manifest.host,
            r.events@ == manifest.events@,
            r.next_event == 0,
            r.stop.max_steps == manifest.stop.max_steps,
            r.stop.on_halt == manifest.stop.on_halt,
            r.stop.at_pc@ == manifest.stop.at_pc@,
            r.steps == 0,
            r.t_states == 0,
    {
        let mut cpu = Z80::new(ConformanceHost::new(manifest));
        cpu.restore_state(&manifest.initial);
        TraceRunner {
            cpu,
            host: manifest.host,
            events: manifest.events.clone(),
            next_event: 0,
            stop: StopRule {
                max_steps: manifest.stop.max_steps,
                on_halt: manifest.stop.on_halt,
                at_pc: manifest.stop.at_pc.clone(),
            },
            steps: 0,
            t_states: 0,
        }
    }

    /// Apply every event due before this boundary, in order.
    fn apply_due_events(&mut self)
        requires
            old(self).wf(),
        ensures
            final(self).wf(),
            final(self).next_event == due_end(old(self).events@, old(self).next_event as int, old(self).steps),
            final(self).cpu.m() == with_st(old(self).cpu.m(), old(self).evented()),
            final(self).cpu.bus == old(self).cpu.bus,
            final(self).cpu.replies@ == old(self).cpu.replies@,
            final(self).events == old(self).events,
            final(self).host == old(self).host,
            final(self).stop == old(self).stop,
            final(self).steps == old(self).steps,
            final(self).t_states == old(self).t_states,
    {
        let ghost s0 = self.cpu.state();
        let ghost n0 = self.next_event as int;
        proof {
            lemma_due_end_bounds(self.events@, n0, self.steps);
        }
        while self.next_event < self.events.len() && self.events[self.next_event].at_step == self.steps
            invariant
                n0 <= self.next_event <= due_end(self.events@, n0, self.steps) <= self.events.len(),
                due_end(self.events@, self.next_event as int, self.steps) == due_end(self.events@, n0, self.steps),
                apply_events(s0, self.events@, n0, due_end(self.events@, n0, self.steps))
                    == apply_events(self.cpu.state(), self.events@, self.next_event as int, due_end(self.events@, n0, self.steps)),
                self.cpu.m() == with_st(old(self).cpu.m(), self.cpu.state()),
                s0 == old(self).cpu.state(),
                n0 == old(self).next_event,
                self.cpu.bus == old(self).cpu.bus,
                self.cpu.replies@ == old(self).cpu.replies@,
                self.events == old(self).events,
                self.host == old(self).host,
                self.stop == old(self).stop,
                self.steps == old(self).steps,
                self.t_states == old(self).t_states,
            decreases self.events.len() - self.next_event,
        {
            proof {
                lemma_due_end_bounds(self.events@, self.next_event + 1, self.steps);
            }
            let event = self.events[self.next_event];
            apply_event(&mut self.cpu, event);
            self.next_event += 1;
        }
    }

    /// Whether the stop rule names `pc`.
    fn stops_at(&self, pc: u16) -> (r: bool)
        ensures
            r == self.stop.at_pc@.contains(pc),
    {
        let mut i: usize = 0;
        while i < self.stop.at_pc.len()
            invariant
                i <= self.stop.at_pc.len(),
                forall|j: int| 0 <= j < i ==> self.stop.at_pc@[j] != pc,
            decreases self.stop.at_pc.len() - i,
        {
            if self.stop.at_pc[i] == pc {
                return true;
            }
            i += 1;
        }
        false
    }

    /// Decide what happens at the next boundary, in the order the kit
    /// defines: the due events, the CP/M traps, `at_pc`, `on_halt`, then the
    /// step budget.
    pub fn boundary(&mut self) -> (r: Result<Boundary, RunError>)
        requires
            old(self).wf(),
            old(self).host == HostProfile::CpmMinimal && old(self).cpu.pc == BDOS_ENTRY && old(self).cpu.c == 9 ==> has_terminator(
                old(self).cpu.bus.memory@,
            ),
        ensures
            final(self).wf(),
            final(self).events == old(self).events,
            final(self).host == old(self).host,
            final(self).stop == old(self).stop,
            final(self).steps == old(self).steps,
            final(self).t_states == old(self).t_states,
            final(self).cpu.bus.memory@ == old(self).cpu.bus.memory@,
            final(self).cpu.bus.port_read_value == old(self).cpu.bus.port_read_value,
            final(self).cpu.replies@ == old(self).cpu.replies@,
            r matches Ok(Boundary::Record(i)) ==> i == old(self).steps && old(self).steps
                < old(self).stop.max_steps,
            ({
                let s1 = old(self).evented();
                let trap = cpm_trap(s1, old(self).cpu.bus.memory@);
                let cpm = old(self).host == HostProfile::CpmMinimal;
                let s2 = if cpm {
                    trap.state
                } else {
                    s1
                };
                &&& final(self).next_event == due_end(
                    old(self).events@,
                    old(self).next_event as int,
                    old(self).steps,
                )
                &&& final(self).cpu.m() == with_st(old(self).cpu.m(), s2)
                &&& final(self).cpu.bus.output@ == old(self).cpu.bus.output@ + (if cpm {
                    trap.output
                } else {
                    Seq::<u8>::empty()
                })
                &&& if cpm && trap.result != Ok::<bool, u8>(false) {
                    match trap.result {
                        Ok(_) => r == Ok::<Boundary, RunError>(Boundary::Stop(StopReason::CpmExit)),
                        Err(f) => r matches Err(RunError::UnsupportedBdosFunction(g)) && g == f,
                    }
                } else {
                    r == Ok::<Boundary, RunError>(
                        stop_check(
                            old(self).stop,
                            s2,
                            final(self).next_event < old(self).events.len(),
                            old(self).steps,
                        ),
                    )
                }
            }),
    {
        self.apply_due_events();
        proof {
            lemma_events_keep_registers(
                old(self).cpu.state(),
                old(self).events@,
                old(self).next_event as int,
                due_end(old(self).events@, old(self).next_event as int, old(self).steps),
            );
        }
        if self.host == HostProfile::CpmMinimal {
            match handle_cpm_trap(&mut self.cpu) {
                Ok(true) => {
                    return Ok(Boundary::Stop(StopReason::CpmExit));
                },
                Ok(false) => {},
                Err(e) => {
                    return Err(e);
                },
            }
        } else {
            assert(self.cpu.bus.output@ =~= old(self).cpu.bus.output@ + Seq::<u8>::empty());
        }
        if self.stops_at(self.cpu.pc) {
            return Ok(Boundary::Stop(StopReason::AtPc));
        }
        if self.stop.on_halt && self.cpu.halted && self.next_event >= self.events.len()
            && !self.cpu.reset_pending() && !self.cpu.non_maskable_interrupt_pending()
            && !self.cpu.maskable_interrupt_pending() {
            return Ok(Boundary::Stop(StopReason::Halted));
        }
        if self.steps >= self.stop.max_steps {
            return Ok(Boundary::Stop(StopReason::MaxSteps));
        }
        Ok(Boundary::Record(self.steps))
    }

    /// Step the CPU as record `steps` and count it. Across the step the host
    /// keeps its condition relative to its state before: every read was
    /// answered from its memory (the step's earlier writes applied) or its
    /// port value, its memory afterwards is its memory before with the
    /// step's writes applied, and its port value and output are unchanged.
    pub fn record(&mut self) -> (r: Result<StepRecord, Fault>)
        requires
            old(self).steps < old(self).stop.max_steps,
            old(self).t_states <= u64::MAX - u32::MAX,
        ensures
            stepped_res(
                old(self).cpu,
                final(self).cpu,
                match r {
                    Ok(rec) => Ok(rec.t_states),
                    Err(f) => Err(f),
                },
                sem_step(old(self).cpu.m(), new_replies(old(self).cpu, final(self).cpu)),
            ),
            r matches Ok(rec) ==> {
                &&& rec.index == old(self).steps
                &&& rec.kind == boundary_kind(old(self).cpu.state())
                &&& rec.address == old(self).cpu.pc
                &&& rec.state == final(self).cpu.state()
                &&& rec.bytes@ == (if rec.kind == BoundaryKind::Instruction {
                    final(self).cpu.fetched@
                } else {
                    Seq::<u8>::empty()
                })
                &&& final(self).steps == old(self).steps + 1
                &&& final(self).t_states == old(self).t_states + rec.t_states
            },
            r is Err ==> final(self).steps == old(self).steps && final(self).t_states == old(self).t_states,
            recorded(*old(self), *final(self), r),
            final(self).cpu.bus.inv(&old(self).cpu.bus),
            final(self).cpu.bus.output@ == old(self).cpu.bus.output@,
            final(self).cpu.bus.port_read_value == old(self).cpu.bus.port_read_value,
            boundary_kind(old(self).cpu.state()) == BoundaryKind::Instruction ==> final(self).cpu.bus.exchanges@.len()
                > old(self).cpu.bus.exchanges@.len() && final(self).cpu.bus.exchanges@[old(self).cpu.bus.exchanges@.len() as int]
                == rd(old(self).cpu.pc, old(self).cpu.bus.memory@[old(self).cpu.pc as int]),
            final(self).events == old(self).events,
            final(self).next_event == old(self).next_event,
            final(self).host == old(self).host,
            final(self).stop == old(self).stop,
    {
        let ghost b0 = self.cpu.bus;
        proof {
            assert(b0.exchanges@.skip(b0.exchanges@.len() as int) =~= Seq::<BusOp>::empty());
            assert(b0.inv(&b0));
        }
        let r = step_record(&mut self.cpu, self.steps);
        proof {
            let n = b0.exchanges@.len();
            lemma_step_ops(old(self).cpu.m(), new_replies(old(self).cpu, self.cpu));
            if boundary_kind(old(self).cpu.state()) == BoundaryKind::Instruction {
                let d = self.cpu.bus.exchanges@.skip(n as int);
                assert(old(self).cpu.m().ops == b0.exchanges@);
                assert(self.cpu.m().ops == self.cpu.bus.exchanges@);
                assert(self.cpu.bus.inv(&b0));
                assert(self.cpu.bus.exchanges@.len() > n);
                assert(reads_answered(b0.memory@, b0.port_read_value, d));
                assert(d[0] == self.cpu.bus.exchanges@[n as int]);
                lemma_reads_answered_at(b0.memory@, b0.port_read_value, d, 0);
                assert(d.take(0) =~= Seq::<BusOp>::empty());
            }
        }
        proof {
            assert(self.cpu.bus.inv(&b0));
            lemma_reads_to_answered(
                b0.memory@,
                b0.port_read_value,
                self.cpu.bus.exchanges@,
                b0.exchanges@.len() as int,
            );
        }
        if let Ok(record) = &r {
            self.steps = self.steps + 1;
            self.t_states = self.t_states + record.t_states as u64;
        }
        r
    }

    /// The run's totals, why it ended, and the console output it produced.
    pub fn finish(self, reason: StopReason) -> (r: TraceRun)
        ensures
            r.steps == self.steps,
            r.t_states == self.t_states,
            r.reason == reason,
            r.output@ == self.cpu.bus.output@,
    {
        TraceRun { steps: self.steps, t_states: self.t_states, reason, output: self.cpu.bus.output }
    }
}

} // verus!
