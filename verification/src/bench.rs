//! The speed benchmark's run: a plain `step()` loop with the `cpm-minimal`
//! traps, no trace records and no state capture.

use vstd::prelude::*;

use crate::conformance::{
    cpm_trap, handle_cpm_trap, has_terminator, ConformanceHost, RunError, TrapOutcome, BDOS_ENTRY,
};
use crate::cpu::sem_step;
use crate::processor::{new_replies, stepped_res, with_st, Bus, Fault, Z80};

verus! {

/// Why a benchmark run stopped normally.
#[derive(Clone, Copy, Debug, PartialEq, Eq, Structural)]
pub enum BenchStop {
    /// The instruction budget was used up.
    Budget,
    /// A `cpm-minimal` trap ended the program.
    CpmExit,
    /// The CPU halted and the run stops on halt.
    Halted,
}

/// Why a benchmark run could not go on.
#[derive(Debug)]
pub enum BenchError {
    /// A `cpm-minimal` trap could not be served.
    Run(RunError),
    /// BDOS function 9 was called with no `$` anywhere in memory, so its
    /// string never ends.
    NoTerminator,
    /// The core stopped with a fault.
    Fault(Fault),
}

/// Whether memory holds a `$` somewhere.
pub fn memory_has_terminator(memory: &[u8; 0x10000]) -> (r: bool)
    ensures
        r == has_terminator(memory@),
{
    let mut i: usize = 0;
    while i < 0x10000
        invariant
            i <= 0x10000,
            memory@.len() == 0x10000,
            forall|j: int| 0 <= j < i ==> memory@[j] != 0x24,
        decreases 0x10000 - i,
    {
        if memory[i] == 0x24 {
            return true;
        }
        i += 1;
    }
    false
}

/// `t` added to the running total `total` with wrap-around.
pub open spec fn add_wrapping(total: u64, t: u32) -> u64 {
    if total + t > u64::MAX {
        (total + t - 0x1_0000_0000_0000_0000) as u64
    } else {
        (total + t) as u64
    }
}

/// The T-states of a run, added with wrap-around.
pub open spec fn wrap_sum(ts: Seq<u32>) -> u64
    decreases ts.len(),
{
    if ts.len() == 0 {
        0
    } else {
        add_wrapping(wrap_sum(ts.drop_last()), ts.last())
    }
}

/// The `cpm-minimal` trap outcome `o` taken at `pre`, leaving `post`: the
/// processor state it gives, the output appended, memory, port value and
/// bus replies unchanged.
pub open spec fn trap_applied(pre: Z80<ConformanceHost>, post: Z80<ConformanceHost>, o: TrapOutcome) -> bool {
    &&& post.m() == with_st(pre.m(), o.state)
    &&& post.bus.memory@ == pre.bus.memory@
    &&& post.bus.output@ == pre.bus.output@ + o.output
    &&& post.bus.port_read_value == pre.bus.port_read_value
    &&& post.replies@ == pre.replies@
}

/// The traps at a boundary (when `cpm`) let the run go on, taking `pre` to
/// `mid`: a BDOS function 9 string ends, and the trap neither stops the
/// program nor fails.
pub open spec fn traps_passed(pre: Z80<ConformanceHost>, mid: Z80<ConformanceHost>, cpm: bool) -> bool {
    if cpm {
        let o = cpm_trap(pre.state(), pre.bus.memory@);
        &&& pre.pc == BDOS_ENTRY && pre.c == 9 ==> has_terminator(pre.bus.memory@)
        &&& o.result == Ok::<bool, u8>(false)
        &&& trap_applied(pre, mid, o)
    } else {
        mid == pre
    }
}

/// One step from `mid` to `post`: the boundary semantics on the bytes the
/// host returned, with result `res`; the host keeps its condition.
pub open spec fn bench_step(mid: Z80<ConformanceHost>, post: Z80<ConformanceHost>, res: Result<u32, Fault>) -> bool {
    &&& stepped_res(mid, post, res, sem_step(mid.m(), new_replies(mid, post)))
    &&& post.bus.inv(&mid.bus)
}

/// Boundary `k` of a run that went on: from `states[k]` the traps pass
/// (to `mids[k]`), the halt check passes, and one step in `ts[k]` T-states
/// reaches `states[k + 1]`.
pub open spec fn boundary_went_on(
    states: Seq<Z80<ConformanceHost>>,
    mids: Seq<Z80<ConformanceHost>>,
    ts: Seq<u32>,
    k: int,
    cpm: bool,
    stop_on_halt: bool,
) -> bool {
    &&& traps_passed(states[k], mids[k], cpm)
    &&& !(stop_on_halt && mids[k].halted)
    &&& bench_step(mids[k], states[k + 1], Ok(ts[k]))
}

/// How the run stopped at its last boundary, from `last` to `end` (`mid`
/// is the state the traps left when the step then faulted).
pub open spec fn bench_stopped(
    last: Z80<ConformanceHost>,
    mid: Z80<ConformanceHost>,
    end: Z80<ConformanceHost>,
    stop: Result<BenchStop, BenchError>,
    n: nat,
    cpm: bool,
    stop_on_halt: bool,
    budget: u64,
) -> bool {
    let o = cpm_trap(last.state(), last.bus.memory@);
    let terminated = last.pc == BDOS_ENTRY && last.c == 9 ==> has_terminator(last.bus.memory@);
    match stop {
        Ok(BenchStop::Budget) => n == budget && end == last,
        Ok(BenchStop::CpmExit) => n < budget && cpm && terminated && o.result == Ok::<bool, u8>(true)
            && trap_applied(last, end, o),
        Err(BenchError::Run(RunError::UnsupportedBdosFunction(f))) => n < budget && cpm && terminated
            && o.result == Err::<bool, u8>(f) && trap_applied(last, end, o),
        Err(BenchError::Run(RunError::Io(_))) => false,
        Err(BenchError::NoTerminator) => n < budget && cpm && !terminated && end == last,
        Ok(BenchStop::Halted) => n < budget && traps_passed(last, end, cpm) && stop_on_halt && end.halted,
        Err(BenchError::Fault(f)) => n < budget && traps_passed(last, mid, cpm) && !(stop_on_halt
            && mid.halted) && bench_step(mid, end, Err(f)),
    }
}

/// A benchmark run from `start` to `end` with result `r`: `r.0` boundaries
/// went on (through `states`, `mids` and `ts`), `r.1` is their T-states
/// added with wrap-around, and the last boundary stopped as `r.2` says.
pub open spec fn bench_run_is(
    start: Z80<ConformanceHost>,
    end: Z80<ConformanceHost>,
    r: (u64, u64, Result<BenchStop, BenchError>),
    cpm: bool,
    stop_on_halt: bool,
    budget: u64,
    states: Seq<Z80<ConformanceHost>>,
    mids: Seq<Z80<ConformanceHost>>,
    ts: Seq<u32>,
    fault_mid: Z80<ConformanceHost>,
) -> bool {
    let n = ts.len();
    &&& r.0 == n
    &&& states.len() == n + 1
    &&& mids.len() == n
    &&& states[0] == start
    &&& forall|k: int| 0 <= k < n ==> #[trigger] boundary_went_on(states, mids, ts, k, cpm, stop_on_halt)
    &&& r.1 == wrap_sum(ts)
    &&& bench_stopped(states[n as int], fault_mid, end, r.2, n, cpm, stop_on_halt, budget)
}

/// Run `cpu` until `budget` instructions have executed, a `cpm-minimal`
/// trap (when `cpm`) ends the program, or the CPU halts (when
/// `stop_on_halt`). Each boundary first checks the budget, then applies
/// the traps, then the halt check, then steps. Returns the instructions
/// executed, the T-states they took (added with wrap-around), and why the
/// run stopped; the CPU is left as it was at the stop.
pub fn bench_run(cpu: &mut Z80<ConformanceHost>, cpm: bool, stop_on_halt: bool, budget: u64) -> (r: (
    u64,
    u64,
    Result<BenchStop, BenchError>,
))
    ensures
        exists|
            states: Seq<Z80<ConformanceHost>>,
            mids: Seq<Z80<ConformanceHost>>,
            ts: Seq<u32>,
            fault_mid: Z80<ConformanceHost>,
        |
            #[trigger] bench_run_is(*old(cpu), *final(cpu), r, cpm, stop_on_halt, budget, states, mids, ts, fault_mid),
{
    let mut instructions: u64 = 0;
    let mut t_states: u64 = 0;
    let ghost mut states: Seq<Z80<ConformanceHost>> = seq![*cpu];
    let ghost mut mids: Seq<Z80<ConformanceHost>> = Seq::empty();
    let ghost mut ts: Seq<u32> = Seq::empty();
    loop
        invariant
            instructions <= budget,
            instructions == ts.len(),
            states.len() == ts.len() + 1,
            mids.len() == ts.len(),
            states[0] == *old(cpu),
            states.last() == *cpu,
            forall|k: int| 0 <= k < ts.len() ==> #[trigger] boundary_went_on(states, mids, ts, k, cpm, stop_on_halt),
            t_states == wrap_sum(ts),
        decreases budget - instructions,
    {
        let ghost last = *cpu;
        if instructions == budget {
            let r = (instructions, t_states, Ok(BenchStop::Budget));
            proof {
                assert(bench_run_is(*old(cpu), *cpu, r, cpm, stop_on_halt, budget, states, mids, ts, last));
            }
            return r;
        }
        if cpm {
            if cpu.pc == BDOS_ENTRY && cpu.c == 9 && !memory_has_terminator(&*cpu.bus.memory) {
                let r = (instructions, t_states, Err(BenchError::NoTerminator));
                proof {
                    assert(bench_run_is(*old(cpu), *cpu, r, cpm, stop_on_halt, budget, states, mids, ts, last));
                }
                return r;
            }
            match handle_cpm_trap(cpu) {
                Ok(true) => {
                    let r = (instructions, t_states, Ok(BenchStop::CpmExit));
                    proof {
                        assert(bench_run_is(*old(cpu), *cpu, r, cpm, stop_on_halt, budget, states, mids, ts, last));
                    }
                    return r;
                },
                Ok(false) => {},
                Err(e) => {
                    let r = (instructions, t_states, Err(BenchError::Run(e)));
                    proof {
                        assert(bench_run_is(*old(cpu), *cpu, r, cpm, stop_on_halt, budget, states, mids, ts, last));
                    }
                    return r;
                },
            }
        }
        if stop_on_halt && cpu.halted {
            let r = (instructions, t_states, Ok(BenchStop::Halted));
            proof {
                assert(bench_run_is(*old(cpu), *cpu, r, cpm, stop_on_halt, budget, states, mids, ts, last));
            }
            return r;
        }
        let ghost mid = *cpu;
        proof {
            assert(mid.bus.exchanges@.skip(mid.bus.exchanges@.len() as int) =~= Seq::<crate::processor::BusOp>::empty());
            assert(mid.bus.inv(&mid.bus));
        }
        match cpu.step() {
            Ok(t) => {
                proof {
                    assert(cpu.bus.inv(&mid.bus));
                    let ghost old_states = states;
                    let ghost old_mids = mids;
                    let ghost old_ts = ts;
                    states = states.push(*cpu);
                    mids = mids.push(mid);
                    ts = ts.push(t);
                    assert forall|k: int| 0 <= k < ts.len() implies #[trigger] boundary_went_on(states, mids, ts, k, cpm, stop_on_halt) by {
                        if k < old_ts.len() {
                            assert(boundary_went_on(old_states, old_mids, old_ts, k, cpm, stop_on_halt));
                            assert(states[k] == old_states[k]);
                            assert(states[k + 1] == old_states[k + 1]);
                        } else {
                            assert(states[k] == last);
                        }
                    }
                    assert(ts.drop_last() =~= old_ts);
                }
                t_states = t_states.wrapping_add(t as u64);
                instructions += 1;
            },
            Err(fault) => {
                let r = (instructions, t_states, Err(BenchError::Fault(fault)));
                proof {
                    assert(cpu.bus.inv(&mid.bus));
                    assert(bench_run_is(*old(cpu), *cpu, r, cpm, stop_on_halt, budget, states, mids, ts, mid));
                }
                return r;
            },
        }
    }
}

} // verus!
