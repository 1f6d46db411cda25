//! The benchmark's run loop.

use z80_rust::bench::{bench_run, BenchError, BenchStop};
use z80_rust::conformance::{ConformanceHost, HostProfile, Manifest, MemorySegment, StopRule};
use z80_rust::{CpuState, Z80};

fn cpu_with(address: u16, program: &[u8], pc: u16) -> Z80<ConformanceHost> {
    let mut initial = CpuState::default();
    initial.pc = pc;
    initial.sp = 0xF000;
    let manifest = Manifest {
        name: "bench".to_string(),
        host: HostProfile::CpmMinimal,
        port_read_value: 0xFF,
        memory: vec![MemorySegment { address, data: program.to_vec() }],
        initial,
        events: Vec::new(),
        stop: StopRule { max_steps: 100, on_halt: true, at_pc: Vec::new() },
    };
    let mut cpu = Z80::new(ConformanceHost::new(&manifest));
    cpu.restore_state(&manifest.initial);
    cpu
}

#[test]
fn a_bench_run_stops_on_halt_and_on_its_budget() {
    let mut cpu = cpu_with(0x100, &[0x00, 0x00, 0x76], 0x100);
    let (n, t, stop) = bench_run(&mut cpu, false, true, 10);
    assert!(matches!(stop, Ok(BenchStop::Halted)));
    assert_eq!((n, t), (3, 12));
    let mut cpu = cpu_with(0x100, &[0x00, 0x00, 0x76], 0x100);
    let (n, t, stop) = bench_run(&mut cpu, false, true, 2);
    assert!(matches!(stop, Ok(BenchStop::Budget)));
    assert_eq!((n, t), (2, 8));
    let mut cpu = cpu_with(0x100, &[0x00, 0x00, 0x76], 0x100);
    let (n, _, stop) = bench_run(&mut cpu, false, false, 6);
    assert!(matches!(stop, Ok(BenchStop::Budget)));
    assert_eq!(n, 6);
}

#[test]
fn a_bench_run_serves_the_cpm_traps() {
    // LD C,2; LD E,'A'; CALL 0x0005; JP 0x0000
    let program = [0x0E, 0x02, 0x1E, 0x41, 0xCD, 0x05, 0x00, 0xC3, 0x00, 0x00];
    let mut cpu = cpu_with(0x100, &program, 0x100);
    let (n, t, stop) = bench_run(&mut cpu, true, true, 100);
    assert!(matches!(stop, Ok(BenchStop::CpmExit)));
    assert_eq!((n, t), (4, 7 + 7 + 17 + 10));
    assert_eq!(cpu.bus.output, b"A".to_vec());
}

#[test]
fn a_bench_run_reports_trap_errors() {
    // LD C,9; CALL 0x0005 with no '$' anywhere in memory.
    let mut cpu = cpu_with(0x100, &[0x0E, 0x09, 0xCD, 0x05, 0x00], 0x100);
    let (n, _, stop) = bench_run(&mut cpu, true, true, 100);
    assert!(matches!(stop, Err(BenchError::NoTerminator)));
    assert_eq!(n, 2);
    // LD C,7; CALL 0x0005: an unsupported BDOS function.
    let mut cpu = cpu_with(0x100, &[0x0E, 0x07, 0xCD, 0x05, 0x00], 0x100);
    let (n, _, stop) = bench_run(&mut cpu, true, true, 100);
    assert!(matches!(
        stop,
        Err(BenchError::Run(z80_rust::conformance::RunError::UnsupportedBdosFunction(7)))
    ));
    assert_eq!(n, 2);
}
