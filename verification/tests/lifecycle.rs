//! Instruction boundaries: RESET, NMI, maskable interrupts, HALT, the EI
//! delay, faults, and state capture/restore.

use z80_rust::{Bus, CpuState, Fault, Z80};

struct Flat(Box<[u8; 0x10000]>);

impl Bus for Flat {
    fn read_byte(&mut self, addr: u16) -> u8 {
        self.0[usize::from(addr)]
    }
    fn write_byte(&mut self, addr: u16, value: u8) {
        self.0[usize::from(addr)] = value;
    }
    fn read_port(&mut self, _addr: u16) -> u8 {
        0xFF
    }
    fn write_port(&mut self, _addr: u16, _value: u8) {}
}

fn cpu_with(program: &[u8]) -> Z80<Flat> {
    let mut memory = Box::new([0u8; 0x10000]);
    memory[..program.len()].copy_from_slice(program);
    Z80::new(Flat(memory))
}

#[test]
fn a_new_cpu_has_zeroed_state() {
    let cpu = cpu_with(&[]);
    assert_eq!(cpu.capture_state(), CpuState::default());
    assert!(cpu.last_instruction_bytes().is_empty());
}

#[test]
fn reset_takes_priority_and_repeats_while_held() {
    let mut cpu = cpu_with(&[0x00, 0x00]);
    cpu.step().unwrap();
    cpu.im = 2;
    cpu.iff1 = true;
    cpu.request_reset();
    cpu.request_non_maskable_interrupt();
    cpu.request_maskable_interrupt(0xFF);
    assert!(cpu.reset_pending());
    assert_eq!(cpu.step(), Ok(3));
    assert_eq!((cpu.pc, cpu.im, cpu.iff1), (0, 0, false));
    assert!(cpu.reset_pending());
    assert!(cpu.non_maskable_interrupt_pending());
    assert_eq!(cpu.step(), Ok(3));
    cpu.clear_reset();
    assert!(!cpu.reset_pending());
    // With RESET released, the NMI is next.
    assert_eq!(cpu.step(), Ok(11));
    assert_eq!(cpu.pc, 0x0066);
    assert!(!cpu.non_maskable_interrupt_pending());
    assert!(cpu.maskable_interrupt_pending());
}

#[test]
fn nmi_copies_iff1_into_iff2_and_pushes_pc() {
    let mut cpu = cpu_with(&[0x00]);
    cpu.sp = 0x9000;
    cpu.iff1 = true;
    cpu.iff2 = true;
    cpu.step().unwrap();
    cpu.request_non_maskable_interrupt();
    assert_eq!(cpu.step(), Ok(11));
    assert_eq!(cpu.pc, 0x0066);
    assert_eq!(cpu.wz, 0x0066);
    assert!(!cpu.iff1);
    assert!(cpu.iff2);
    assert_eq!(cpu.sp, 0x8FFE);
    assert_eq!((cpu.bus.0[0x8FFF], cpu.bus.0[0x8FFE]), (0x00, 0x01));
}

#[test]
fn nmi_inside_the_ei_delay_clears_iff2_with_the_erratum() {
    let mut cpu = cpu_with(&[0xFB, 0xFB]);
    cpu.ei_nmi_iff2_erratum = true;
    cpu.step().unwrap();
    assert_eq!(cpu.ei_delay, 1);
    cpu.request_non_maskable_interrupt();
    assert_eq!(cpu.step(), Ok(11));
    assert!(!cpu.iff2);
}

#[test]
fn im1_interrupt_waits_for_the_ei_delay() {
    // EI; NOP; NOP
    let mut cpu = cpu_with(&[0xFB, 0x00, 0x00]);
    cpu.sp = 0x9000;
    cpu.im = 1;
    cpu.request_maskable_interrupt(0xFF);
    assert_eq!(cpu.step(), Ok(4)); // EI
    assert_eq!(cpu.ei_delay, 1);
    assert_eq!(cpu.step(), Ok(4)); // NOP inside the delay
    assert_eq!(cpu.pc, 2);
    assert_eq!(cpu.ei_delay, 0);
    assert_eq!(cpu.step(), Ok(13));
    assert_eq!(cpu.pc, 0x0038);
    assert!(!cpu.iff1 && !cpu.iff2);
    assert!(!cpu.maskable_interrupt_pending());
    assert_eq!((cpu.bus.0[0x8FFF], cpu.bus.0[0x8FFE]), (0x00, 0x02));
}

#[test]
fn im2_reads_the_handler_address_from_the_table() {
    let mut program = vec![0x00];
    program.resize(0x1234, 0);
    program.extend_from_slice(&[0x78, 0x56]);
    let mut cpu = cpu_with(&program);
    cpu.sp = 0x9000;
    cpu.im = 2;
    cpu.i = 0x12;
    cpu.iff1 = true;
    cpu.request_maskable_interrupt(0x34);
    assert_eq!(cpu.step(), Ok(19));
    assert_eq!(cpu.pc, 0x5678);
    assert_eq!(cpu.wz, 0x5678);
}

#[test]
fn im0_runs_an_rst_and_refuses_anything_else() {
    let mut cpu = cpu_with(&[0x00]);
    cpu.sp = 0x9000;
    cpu.iff1 = true;
    cpu.request_maskable_interrupt(0x00);
    let before = cpu.capture_state();
    assert_eq!(cpu.step(), Err(Fault::Im0NonRstVector(0x00)));
    assert_eq!(cpu.capture_state(), before);
    assert!(cpu.maskable_interrupt_pending());
    cpu.request_maskable_interrupt(0xEF); // RST 28h
    assert_eq!(cpu.step(), Ok(13));
    assert_eq!(cpu.pc, 0x0028);
}

#[test]
fn halt_idles_until_an_interrupt_wakes_it() {
    // EI; HALT
    let mut cpu = cpu_with(&[0xFB, 0x76]);
    cpu.sp = 0x9000;
    cpu.im = 1;
    cpu.step().unwrap();
    assert_eq!(cpu.step(), Ok(4));
    assert!(cpu.halted);
    let pc = cpu.pc;
    let r = cpu.r;
    assert_eq!(cpu.step(), Ok(4));
    assert_eq!(cpu.pc, pc);
    assert_eq!(cpu.r, r + 1);
    cpu.request_maskable_interrupt(0xFF);
    assert_eq!(cpu.step(), Ok(13));
    assert!(!cpu.halted);
    assert_eq!(cpu.pc, 0x0038);
    assert_eq!((cpu.bus.0[0x8FFF], cpu.bus.0[0x8FFE]), (0x00, 0x02));
}

#[test]
fn di_inside_the_ei_delay_ends_it() {
    // EI; DI; NOP
    let mut cpu = cpu_with(&[0xFB, 0xF3, 0x00]);
    cpu.step().unwrap();
    assert_eq!(cpu.step(), Ok(4));
    assert_eq!(cpu.ei_delay, 0);
    assert!(!cpu.iff1);
}

#[test]
fn clearing_requests_cancels_them() {
    let mut cpu = cpu_with(&[0x00, 0x00]);
    cpu.iff1 = true;
    cpu.request_maskable_interrupt(0xFF);
    cpu.clear_maskable_interrupt();
    cpu.request_non_maskable_interrupt();
    cpu.clear_non_maskable_interrupt();
    assert_eq!(cpu.step(), Ok(4));
    assert_eq!(cpu.pc, 1);
}

#[test]
fn restore_then_capture_gives_the_state_back() {
    let mut cpu = cpu_with(&[]);
    let state = CpuState {
        a: 1,
        f: 2,
        b: 3,
        c: 4,
        d: 5,
        e: 6,
        h: 7,
        l: 8,
        ix: 0x1111,
        iy: 0x2222,
        sp: 0x3333,
        pc: 0x4444,
        wz: 0x5555,
        i: 9,
        r: 10,
        iff1: true,
        iff2: false,
        im: 2,
        af_alt: 0x6666,
        bc_alt: 0x7777,
        de_alt: 0x8888,
        hl_alt: 0x9999,
        q: 11,
        halted: true,
        ei_delay: 1,
        reset_pending: false,
        maskable_interrupt_vector: Some(0x42),
        non_maskable_interrupt_pending: true,
    };
    cpu.restore_state(&state);
    assert_eq!(cpu.capture_state(), state);
    cpu.restore_state(&CpuState::default());
    assert_eq!(cpu.capture_state(), CpuState::default());
}

#[test]
fn validate_names_the_broken_constraint() {
    let mut state = CpuState::default();
    assert_eq!(state.validate(), Ok(()));
    state.ei_delay = 2;
    assert_eq!(state.validate(), Err("ei_delay must be 0 or 1".to_string()));
    state.im = 3;
    assert_eq!(state.validate(), Err("im must be 0, 1, or 2".to_string()));
}

#[test]
fn write_json_sorts_keys_and_prints_null() {
    let mut out = String::from(">");
    let mut state = CpuState::default();
    state.a = 255;
    state.pc = 0x1234;
    state.iff1 = true;
    state.write_json(&mut out);
    assert_eq!(
        out,
        ">{\"a\":255,\"af_alt\":0,\"b\":0,\"bc_alt\":0,\"c\":0,\"d\":0,\"de_alt\":0,\"e\":0,\
         \"ei_delay\":0,\"f\":0,\"h\":0,\"halted\":false,\"hl_alt\":0,\"i\":0,\"iff1\":true,\
         \"iff2\":false,\"im\":0,\"ix\":0,\"iy\":0,\"l\":0,\"maskable_interrupt_vector\":null,\
         \"non_maskable_interrupt_pending\":false,\"pc\":4660,\"q\":0,\"r\":0,\"reset_pending\":false,\
         \"sp\":0,\"wz\":0}"
    );
    let mut out = String::new();
    state.maskable_interrupt_vector = Some(7);
    state.write_json(&mut out);
    assert!(out.contains("\"maskable_interrupt_vector\":7,"));
}

#[test]
fn a_dd_run_before_halt_costs_a_stray_each() {
    // DD DD 76: HALT after two strays.
    let mut cpu = cpu_with(&[0xDD, 0xDD, 0x76]);
    assert_eq!(cpu.step(), Ok(12));
    assert!(cpu.halted);
    assert_eq!(cpu.r, 3);
}
