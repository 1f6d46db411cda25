//! Public Z80 CPU API: `step`, state capture/restore, and the lifecycle
//! requests.
//!
//! An instruction boundary is stated as [`sem_step`]: an asserted RESET
//! takes priority over NMI, and NMI over an accepted maskable interrupt;
//! each is serviced before instruction fetch. A halted CPU consumes a
//! four-T-state idle cycle until something wakes it.

use vstd::prelude::*;

use crate::dispatch::{
    extends, lemma_ops_base, lemma_ops_cb, lemma_ops_ed, lemma_q_base, lemma_q_cb, lemma_q_ed,
    lemma_requests_base, lemma_requests_cb, lemma_requests_ed,
    q_consistent, requests, sem_decode,
};
use crate::index_dispatch::{lemma_ops_run, lemma_q_run, lemma_requests_run, lemma_run_faults};
use crate::processor::{
    fetched, lemma_replies_chain, logged, new_replies, next_r, pushed, q_clear, rd, stepped, stepped_res,
    with_st, word, host_kept, Bus, Fault, Machine, Z80,
};
use crate::state::CpuState;

verus! {

broadcast use crate::flags::group_masks;

/// A maskable interrupt can be taken: IFF1 set, no EI delay running, and a
/// request latched.
pub open spec fn can_accept_int(s: CpuState) -> bool {
    s.iff1 && s.ei_delay == 0 && s.maskable_interrupt_vector is Some
}

/// The RESET-visible state, applied while the host holds RESET; the request
/// itself stays asserted until the host clears it.
pub open spec fn sem_reset(m: Machine) -> (Machine, u32) {
    (
        with_st(
            m,
            CpuState {
                pc: 0,
                im: 0,
                iff1: false,
                iff2: false,
                halted: false,
                ei_delay: 0,
                q: 0,
                ..m.st
            },
        ),
        3,
    )
}

/// NMI entry: IFF1 is copied to IFF2 (or, with the NMOS erratum switched on
/// and EI's delay running, IFF2 is cleared too), PC is pushed and execution
/// continues at 0x0066.
pub open spec fn sem_nmi(m: Machine) -> (Machine, u32) {
    let s = m.st;
    let iff2 = if m.erratum && s.ei_delay > 0 {
        false
    } else {
        s.iff1
    };
    let m1 = with_st(
        m,
        CpuState {
            non_maskable_interrupt_pending: false,
            halted: false,
            iff1: false,
            iff2: iff2,
            r: next_r(s.r),
            ..s
        },
    );
    let m2 = pushed(m1, s.pc);
    (with_st(m2, CpuState { wz: 0x0066, pc: 0x0066, q: 0, ..m2.st }), 11)
}

/// Maskable-interrupt entry with the latched device byte `v`. In IM 0 only
/// an RST opcode is supported; any other byte is a fault that leaves the
/// state, the request included, as it was. In IM 2 the handler address is
/// read from `I:v`, low byte first (`rv` are the two bytes returned).
pub open spec fn sem_int(m: Machine, rv: Seq<u8>) -> (Machine, Result<u32, Fault>) {
    let s = m.st;
    let v = s.maskable_interrupt_vector->0;
    if s.im == 0 && v & 0xC7 != 0xC7 {
        (m, Err(Fault::Im0NonRstVector(v)))
    } else {
        let m1 = with_st(
            m,
            CpuState {
                maskable_interrupt_vector: None,
                halted: false,
                iff1: false,
                iff2: false,
                r: next_r(s.r),
                ..s
            },
        );
        let m2 = pushed(m1, s.pc);
        if s.im == 0 {
            let target = (v & 0x38) as u16;
            (with_st(m2, CpuState { wz: target, pc: target, q: 0, ..m2.st }), Ok(13))
        } else if s.im == 1 {
            (with_st(m2, CpuState { wz: 0x0038, pc: 0x0038, q: 0, ..m2.st }), Ok(13))
        } else {
            let addr = word(s.i, v);
            let m3 = logged(logged(m2, rd(addr, rv[0])), rd(addr.wrapping_add(1), rv[1]));
            let target = word(rv[1], rv[0]);
            (with_st(m3, CpuState { wz: target, pc: target, q: 0, ..m3.st }), Ok(19))
        }
    }
}

/// EI's one-instruction delay counts down at the end of a boundary at which
/// it was running.
pub open spec fn ei_tick(before: CpuState, m: Machine) -> Machine {
    if before.ei_delay > 0 && m.st.ei_delay > 0 {
        with_st(m, CpuState { ei_delay: (m.st.ei_delay - 1) as u8, ..m.st })
    } else {
        m
    }
}

/// A boundary at which no request is serviced: an idle cycle when halted,
/// an instruction otherwise, then the EI delay counts down.
pub open spec fn sem_run(m: Machine, rv: Seq<u8>) -> (Machine, Result<u32, Fault>) {
    let r = if m.st.halted {
        (q_clear(with_st(m, CpuState { r: next_r(m.st.r), ..m.st })), Ok::<u32, Fault>(4))
    } else {
        sem_decode(m, rv)
    };
    match r.1 {
        Ok(t) => (ei_tick(m.st, r.0), Ok(t)),
        Err(e) => (r.0, Err(e)),
    }
}

/// One instruction boundary: RESET, then NMI, then an acceptable maskable
/// interrupt, then the idle cycle or the next instruction.
pub open spec fn sem_step(m: Machine, rv: Seq<u8>) -> (Machine, Result<u32, Fault>) {
    if m.st.reset_pending {
        (sem_reset(m).0, Ok(sem_reset(m).1))
    } else if m.st.non_maskable_interrupt_pending {
        (sem_nmi(m).0, Ok(sem_nmi(m).1))
    } else if can_accept_int(m.st) {
        sem_int(m, rv)
    } else {
        sem_run(m, rv)
    }
}

/// A held RESET wins over every other request, and stays asserted: each
/// boundary while it is held applies the RESET state again, in 3 T-states.
pub proof fn lemma_reset_priority(m: Machine, rv: Seq<u8>)
    requires
        m.st.reset_pending,
    ensures
        sem_step(m, rv) == (sem_reset(m).0, Ok::<u32, Fault>(3)),
        sem_step(m, rv).0.st.reset_pending,
        sem_step(m, rv).0.st.pc == 0,
        sem_step(m, rv).0.st.non_maskable_interrupt_pending == m.st.non_maskable_interrupt_pending,
        sem_step(m, rv).0.st.maskable_interrupt_vector == m.st.maskable_interrupt_vector,
        sem_step(sem_step(m, rv).0, rv) == sem_step(m, rv),
{
}

/// Without RESET, a pending NMI is taken before any maskable interrupt and
/// is consumed by being taken; the maskable request stays latched.
pub proof fn lemma_nmi_priority(m: Machine, rv: Seq<u8>)
    requires
        !m.st.reset_pending,
        m.st.non_maskable_interrupt_pending,
    ensures
        sem_step(m, rv) == (sem_nmi(m).0, Ok::<u32, Fault>(11)),
        !sem_step(m, rv).0.st.non_maskable_interrupt_pending,
        !sem_step(m, rv).0.st.iff1,
        sem_step(m, rv).0.st.pc == 0x0066,
        sem_step(m, rv).0.st.maskable_interrupt_vector == m.st.maskable_interrupt_vector,
{
}

/// An IM 0 interrupt whose device byte is not an RST opcode stops with a
/// fault and changes nothing: the request stays pending.
pub proof fn lemma_im0_non_rst_faults(m: Machine, rv: Seq<u8>)
    requires
        !m.st.reset_pending,
        !m.st.non_maskable_interrupt_pending,
        can_accept_int(m.st),
        m.st.im == 0,
        m.st.maskable_interrupt_vector->0 & 0xC7 != 0xC7,
    ensures
        sem_step(m, rv) == (m, Err::<u32, Fault>(Fault::Im0NonRstVector(m.st.maskable_interrupt_vector->0))),
{
}

/// A maskable interrupt is never taken while IFF1 is clear or EI's delay is
/// running: the boundary runs the idle cycle or the next instruction.
pub proof fn lemma_int_blocked(m: Machine, rv: Seq<u8>)
    requires
        !m.st.reset_pending,
        !m.st.non_maskable_interrupt_pending,
        !m.st.iff1 || m.st.ei_delay > 0,
    ensures
        sem_step(m, rv) == sem_run(m, rv),
{
}

/// A halted CPU with nothing to service idles for 4 T-states: PC stays put,
/// R counts the M1 cycle, Q clears, and the bus is not touched.
pub proof fn lemma_halted_idle(m: Machine, rv: Seq<u8>)
    requires
        m.st.halted,
        !m.st.reset_pending,
        !m.st.non_maskable_interrupt_pending,
        !can_accept_int(m.st),
    ensures
        sem_step(m, rv).1 == Ok::<u32, Fault>(4),
        sem_step(m, rv).0.st.pc == m.st.pc,
        sem_step(m, rv).0.st.halted,
        sem_step(m, rv).0.st.r == next_r(m.st.r),
        sem_step(m, rv).0.ops == m.ops,
        sem_step(m, rv).0.bytes == m.bytes,
{
}

/// An accepted interrupt or NMI wakes a halted CPU.
pub proof fn lemma_interrupt_wakes(m: Machine, rv: Seq<u8>)
    requires
        !m.st.reset_pending,
        m.st.non_maskable_interrupt_pending || (can_accept_int(m.st) && (m.st.im != 0
            || m.st.maskable_interrupt_vector->0 & 0xC7 == 0xC7)),
    ensures
        !sem_step(m, rv).0.st.halted,
        sem_step(m, rv).1 is Ok,
{
}

/// Restoring a captured state changes nothing, and capturing after a
/// restore gives back exactly the state that was restored.
pub proof fn lemma_capture_restore(m: Machine, s: CpuState)
    ensures
        with_st(m, m.st) == m,
        with_st(m, s).st == s,
        with_st(with_st(m, s), m.st) == m,
{
}

/// The bytes recorded for an instruction start afresh at its fetch: what an
/// instruction does, and the bytes recorded for it, do not depend on the
/// bytes recorded for the one before.
pub proof fn lemma_bytes_start_afresh(m: Machine, earlier: Seq<u8>, rv: Seq<u8>)
    ensures
        sem_decode(Machine { bytes: earlier, ..m }, rv) == sem_decode(m, rv),
{
    assert(Machine { bytes: Seq::empty(), ..Machine { bytes: earlier, ..m } } == Machine {
        bytes: Seq::empty(),
        ..m
    });
}

/// Every opcode is handled: an instruction faults only on a run of DD/FD
/// prefixes longer than the stray limit, and a boundary otherwise only on
/// an IM 0 device byte that is not an RST.
pub proof fn lemma_faults(m: Machine, rv: Seq<u8>)
    ensures
        sem_decode(m, rv).1 matches Err(e) ==> e is UnhandledIndexOpcode,
        sem_step(m, rv).1 matches Err(e) ==> (e is UnhandledIndexOpcode || e is Im0NonRstVector),
        !(sem_step(m, rv).1 matches Err(Fault::UnhandledOpcode { .. })),
{
    let m0 = Machine { bytes: Seq::empty(), ..m };
    let f = fetched(m0, rv[0]);
    let op = rv[0];
    let rest = rv.skip(1);
    if op == 0xDD || op == 0xFD {
        lemma_run_faults(fetched(f, rest[0]), op, rest[0], rest.skip(1), 0);
    }
    if !m.st.reset_pending && !m.st.non_maskable_interrupt_pending && !can_accept_int(m.st)
        && !m.st.halted {
        let r = Machine { bytes: Seq::empty(), ..m };
        let rf = fetched(r, rv[0]);
        if rv[0] == 0xDD || rv[0] == 0xFD {
            lemma_run_faults(fetched(rf, rv.skip(1)[0]), rv[0], rv.skip(1)[0], rv.skip(1).skip(1), 0);
        }
    }
}

/// Q always holds the last instruction's flag output: if it is F or 0
/// before a boundary, it is F or 0 after it, whatever the boundary does.
pub proof fn lemma_q_invariant(m: Machine, rv: Seq<u8>)
    requires
        q_consistent(m.st),
    ensures
        q_consistent(sem_step(m, rv).0.st),
{
    let m0 = Machine { bytes: Seq::empty(), ..m };
    let f = fetched(m0, rv[0]);
    let op = rv[0];
    let rest = rv.skip(1);
    lemma_q_base(f, op, false, rest);
    lemma_q_cb(fetched(f, rest[0]), rest[0], rest.skip(1));
    lemma_q_ed(fetched(f, rest[0]), rest[0], rest.skip(1));
    if op == 0xDD || op == 0xFD {
        lemma_q_run(fetched(f, rest[0]), op, rest[0], rest.skip(1), 0);
    }
}

/// A maskable-interrupt request stays pending, with the same device byte,
/// until a boundary accepts it. A boundary that does not take it (RESET,
/// NMI, IFF1 clear, EI's delay running, an idle cycle or any instruction,
/// a faulting one included) leaves it as it was; one that takes it clears
/// it, and one that faults on it keeps it.
pub proof fn lemma_int_request_stays(m: Machine, rv: Seq<u8>)
    ensures
        (m.st.reset_pending || m.st.non_maskable_interrupt_pending || !can_accept_int(m.st))
            ==> sem_step(m, rv).0.st.maskable_interrupt_vector == m.st.maskable_interrupt_vector,
        (!m.st.reset_pending && !m.st.non_maskable_interrupt_pending && can_accept_int(m.st))
            ==> (sem_step(m, rv).0.st.maskable_interrupt_vector is None <==> sem_step(m, rv).1 is Ok),
        (!m.st.reset_pending && !m.st.non_maskable_interrupt_pending && can_accept_int(m.st)
            && sem_step(m, rv).1 is Err) ==> sem_step(m, rv).0.st.maskable_interrupt_vector
            == m.st.maskable_interrupt_vector,
{
    let m0 = Machine { bytes: Seq::empty(), ..m };
    let f = fetched(m0, rv[0]);
    let op = rv[0];
    let rest = rv.skip(1);
    assert(requests(f.st) == requests(m.st));
    lemma_requests_base(f, op, false, rest);
    lemma_requests_cb(fetched(f, rest[0]), rest[0], rest.skip(1));
    lemma_requests_ed(fetched(f, rest[0]), rest[0], rest.skip(1));
    if op == 0xDD || op == 0xFD {
        lemma_requests_run(fetched(f, rest[0]), op, rest[0], rest.skip(1), 0);
    }
    assert(requests(sem_decode(m, rv).0.st) == requests(m.st));
}

/// A boundary only adds to the bus traffic, and an instruction boundary
/// begins by fetching its opcode from PC.
pub proof fn lemma_step_ops(m: Machine, rv: Seq<u8>)
    ensures
        extends(m.ops, sem_step(m, rv).0.ops),
        (!m.st.reset_pending && !m.st.non_maskable_interrupt_pending && !can_accept_int(m.st)
            && !m.st.halted) ==> sem_step(m, rv).0.ops.len() > m.ops.len() && sem_step(m, rv).0.ops[m.ops.len() as int]
            == rd(m.st.pc, rv[0]),
{
    let m0 = Machine { bytes: Seq::empty(), ..m };
    let f = fetched(m0, rv[0]);
    let op = rv[0];
    let rest = rv.skip(1);
    assert(f.ops[m.ops.len() as int] == rd(m.st.pc, rv[0]));
    lemma_ops_base(f, op, false, rest);
    lemma_ops_cb(fetched(f, rest[0]), rest[0], rest.skip(1));
    lemma_ops_ed(fetched(f, rest[0]), rest[0], rest.skip(1));
    if op == 0xDD || op == 0xFD {
        lemma_ops_run(fetched(f, rest[0]), op, rest[0], rest.skip(1), 0);
    }
    assert(extends(m.ops, f.ops));
    assert(extends(f.ops, sem_decode(m, rv).0.ops));
}

impl<B: Bus> Z80<B> {
    pub fn can_accept_maskable_interrupt(&self) -> (r: bool)
        ensures
            r == can_accept_int(self.state()),
    {
        self.iff1 && self.ei_delay == 0 && self.pending_maskable_interrupt.is_some()
    }

    /// Apply the RESET-visible CPU state while the host holds RESET asserted.
    pub fn accept_reset(&mut self) -> (t: u32)
        requires
            old(self).reset_pending,
        ensures
            host_kept(old(self).bus, final(self).bus),
            stepped(*old(self), *final(self), t, sem_reset(old(self).m())),
    {
        self.pc = 0;
        self.im = 0;
        self.iff1 = false;
        self.iff2 = false;
        self.halted = false;
        self.ei_delay = 0;
        self.update_q(false);
        3
    }

    /// Enter a pending NMI at an instruction boundary.
    pub fn accept_non_maskable_interrupt(&mut self) -> (t: u32)
        requires
            old(self).non_maskable_interrupt_pending,
        ensures
            host_kept(old(self).bus, final(self).bus),
            stepped(*old(self), *final(self), t, sem_nmi(old(self).m())),
    {
        self.non_maskable_interrupt_pending = false;
        self.halted = false;
        if self.ei_nmi_iff2_erratum && self.ei_delay > 0 {
            // Opt-in NMOS quirk: an NMI landing inside EI's one-instruction
            // delay window resets IFF2 as well as IFF1, instead of IFF2
            // preserving the pre-NMI IFF1 value for a later RETN.
            self.iff2 = false;
        } else {
            self.iff2 = self.iff1;
        }
        self.iff1 = false;
        self.inc_r();
        let pc = self.pc;
        self.push_word(pc);
        self.wz = 0x0066;
        self.pc = self.wz;
        self.update_q(false);
        11
    }

    /// Enter a pending maskable interrupt at an instruction boundary.
    pub fn accept_maskable_interrupt(&mut self) -> (r: Result<u32, Fault>)
        requires
            can_accept_int(old(self).state()),
        ensures
            host_kept(old(self).bus, final(self).bus),
            stepped_res(*old(self), *final(self), r, sem_int(old(self).m(), new_replies(*old(self), *final(self)))),
    {
        let vector_byte = match self.pending_maskable_interrupt {
            Some(v) => v,
            None => 0,
        };
        if self.im == 0 && (vector_byte & 0xC7) != 0xC7 {
            return Err(Fault::Im0NonRstVector(vector_byte));
        }
        self.pending_maskable_interrupt = None;
        self.halted = false;
        self.iff1 = false;
        self.iff2 = false;
        self.inc_r();
        let pc = self.pc;
        self.push_word(pc);
        let ghost mid = *self;
        let t_states = if self.im == 0 {
            self.wz = (vector_byte & 0x38) as u16;
            self.pc = self.wz;
            13
        } else if self.im == 1 {
            self.wz = 0x0038;
            self.pc = self.wz;
            13
        } else {
            let vector_address = ((self.i as u16) << 8u16) | (vector_byte as u16);
            let low = self.mem_read(vector_address);
            let high = self.mem_read(vector_address.wrapping_add(1));
            self.wz = ((high as u16) << 8u16) | (low as u16);
            self.pc = self.wz;
            proof {
                let r0 = old(self).replies@;
                assert(self.replies@ == r0.push(low).push(high));
                assert(self.replies@.skip(r0.len() as int) =~= seq![low, high]);
            }
            19
        };
        self.update_q(false);
        Ok(t_states)
    }

    /// Advance one instruction boundary and return its documented T-state
    /// count.
    ///
    /// An asserted RESET takes priority over NMI and an accepted maskable
    /// interrupt; each is serviced before instruction fetch. A halted CPU
    /// consumes a four-T-state idle cycle until an accepted interrupt wakes
    /// it. T-states are instruction/lifecycle totals, not externally
    /// observable bus cycles.
    pub fn step(&mut self) -> (r: Result<u32, Fault>)
        ensures
            host_kept(old(self).bus, final(self).bus),
            stepped_res(*old(self), *final(self), r, sem_step(old(self).m(), new_replies(*old(self), *final(self)))),
    {
        if self.reset_pending {
            return Ok(self.accept_reset());
        }
        if self.non_maskable_interrupt_pending {
            return Ok(self.accept_non_maskable_interrupt());
        }
        if self.can_accept_maskable_interrupt() {
            return self.accept_maskable_interrupt();
        }
        let delay_was_active = self.ei_delay > 0;
        let ghost before = *self;
        let t_states = if self.halted {
            self.inc_r();
            self.update_q(false);
            4
        } else {
            match self.decode_and_execute() {
                Ok(t) => t,
                Err(e) => return Err(e),
            }
        };
        // The delay is one instruction long; an instruction inside it that
        // cleared it (DI) leaves nothing to count down.
        if delay_was_active && self.ei_delay > 0 {
            self.ei_delay = self.ei_delay - 1;
        }
        proof {
            lemma_replies_chain(old(self).replies@, before.replies@, self.replies@);
        }
        Ok(t_states)
    }

    /// Return a snapshot of all CPU-owned execution state.
    ///
    /// Host memory, ports, devices, scheduling, and counters are not included.
    pub fn capture_state(&self) -> (r: CpuState)
        ensures
            r == self.state(),
    {
        CpuState {
            a: self.a,
            f: self.f.byte(),
            b: self.b,
            c: self.c,
            d: self.d,
            e: self.e,
            h: self.h,
            l: self.l,
            ix: self.ix,
            iy: self.iy,
            sp: self.sp,
            pc: self.pc,
            wz: self.wz,
            i: self.i,
            r: self.r,
            iff1: self.iff1,
            iff2: self.iff2,
            im: self.im,
            af_alt: self.af_,
            bc_alt: self.bc_,
            de_alt: self.de_,
            hl_alt: self.hl_,
            q: self.q,
            halted: self.halted,
            ei_delay: self.ei_delay,
            reset_pending: self.reset_pending,
            maskable_interrupt_vector: self.pending_maskable_interrupt,
            non_maskable_interrupt_pending: self.non_maskable_interrupt_pending,
        }
    }

    /// Restore a previously captured CPU state without touching the host.
    pub fn restore_state(&mut self, state: &CpuState)
        ensures
            host_kept(old(self).bus, final(self).bus),
            final(self).m() == with_st(old(self).m(), *state),
            final(self).replies@ == old(self).replies@,
            final(self).bus == old(self).bus,
    {
        self.a = state.a;
        self.f.set_byte(state.f);
        self.b = state.b;
        self.c = state.c;
        self.d = state.d;
        self.e = state.e;
        self.h = state.h;
        self.l = state.l;
        self.ix = state.ix;
        self.iy = state.iy;
        self.sp = state.sp;
        self.pc = state.pc;
        self.wz = state.wz;
        self.i = state.i;
        self.r = state.r;
        self.iff1 = state.iff1;
        self.iff2 = state.iff2;
        self.im = state.im;
        self.af_ = state.af_alt;
        self.bc_ = state.bc_alt;
        self.de_ = state.de_alt;
        self.hl_ = state.hl_alt;
        self.q = state.q;
        self.halted = state.halted;
        self.ei_delay = state.ei_delay;
        self.reset_pending = state.reset_pending;
        self.pending_maskable_interrupt = state.maskable_interrupt_vector;
        self.non_maskable_interrupt_pending = state.non_maskable_interrupt_pending;
    }

    /// Whether the host has asserted RESET.
    pub fn reset_pending(&self) -> (r: bool)
        ensures
            r == self.state().reset_pending,
    {
        self.reset_pending
    }

    /// Assert RESET for servicing at the next instruction boundary.
    pub fn request_reset(&mut self)
        ensures
            host_kept(old(self).bus, final(self).bus),
            final(self).m() == with_st(old(self).m(), CpuState { reset_pending: true, ..old(self).state() }),
            final(self).replies@ == old(self).replies@,
            final(self).bus == old(self).bus,
    {
        self.reset_pending = true;
    }

    /// Release the host-controlled RESET line.
    pub fn clear_reset(&mut self)
        ensures
            host_kept(old(self).bus, final(self).bus),
            final(self).m() == with_st(old(self).m(), CpuState { reset_pending: false, ..old(self).state() }),
            final(self).replies@ == old(self).replies@,
            final(self).bus == old(self).bus,
    {
        self.reset_pending = false;
    }

    /// Whether a device has requested a maskable interrupt not yet accepted.
    pub fn maskable_interrupt_pending(&self) -> (r: bool)
        ensures
            r == self.state().maskable_interrupt_vector is Some,
    {
        self.pending_maskable_interrupt.is_some()
    }

    /// Assert the maskable-interrupt request line between instruction
    /// boundaries; a later request replaces the device byte of an earlier one.
    pub fn request_maskable_interrupt(&mut self, vector_byte: u8)
        ensures
            host_kept(old(self).bus, final(self).bus),
            final(self).m() == with_st(old(self).m(), CpuState { maskable_interrupt_vector: Some(vector_byte), ..old(self).state() }),
            final(self).replies@ == old(self).replies@,
            final(self).bus == old(self).bus,
    {
        self.pending_maskable_interrupt = Some(vector_byte);
    }

    /// Deassert a previously requested but not-yet-accepted interrupt.
    pub fn clear_maskable_interrupt(&mut self)
        ensures
            host_kept(old(self).bus, final(self).bus),
            final(self).m() == with_st(old(self).m(), CpuState { maskable_interrupt_vector: None, ..old(self).state() }),
            final(self).replies@ == old(self).replies@,
            final(self).bus == old(self).bus,
    {
        self.pending_maskable_interrupt = None;
    }

    /// Whether a device has requested a non-maskable interrupt not yet
    /// accepted.
    pub fn non_maskable_interrupt_pending(&self) -> (r: bool)
        ensures
            r == self.state().non_maskable_interrupt_pending,
    {
        self.non_maskable_interrupt_pending
    }

    /// Latch an NMI request for service at the next instruction boundary.
    pub fn request_non_maskable_interrupt(&mut self)
        ensures
            host_kept(old(self).bus, final(self).bus),
            final(self).m() == with_st(old(self).m(), CpuState { non_maskable_interrupt_pending: true, ..old(self).state() }),
            final(self).replies@ == old(self).replies@,
            final(self).bus == old(self).bus,
    {
        self.non_maskable_interrupt_pending = true;
    }

    /// Cancel a requested NMI that has not yet reached an instruction
    /// boundary.
    pub fn clear_non_maskable_interrupt(&mut self)
        ensures
            host_kept(old(self).bus, final(self).bus),
            final(self).m() == with_st(old(self).m(), CpuState { non_maskable_interrupt_pending: false, ..old(self).state() }),
            final(self).replies@ == old(self).replies@,
            final(self).bus == old(self).bus,
    {
        self.non_maskable_interrupt_pending = false;
    }
}

} // verus!
