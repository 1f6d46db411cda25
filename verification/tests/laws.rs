//! The library's laws on concrete values.

use z80_rust::conformance::RunError;
use z80_rust::{Bus, Fault, Z80};

struct Flat(Box<[u8; 0x10000]>);

impl Bus for Flat {
    fn read_byte(&mut self, addr: u16) -> u8 {
        self.0[usize::from(addr)]
    }
    fn write_byte(&mut self, addr: u16, value: u8) {
        self.0[usize::from(addr)] = value;
    }
    fn read_port(&mut self, _addr: u16) -> u8 {
        0x5A
    }
    fn write_port(&mut self, _addr: u16, _value: u8) {}
}

fn cpu_with(program: &[u8]) -> Z80<Flat> {
    let mut memory = Box::new([0u8; 0x10000]);
    memory[..program.len()].copy_from_slice(program);
    Z80::new(Flat(memory))
}

#[test]
fn every_opcode_is_handled_and_keeps_q_consistent() {
    for prefix in [None, Some(0xCBu8), Some(0xEDu8), Some(0xDDu8), Some(0xFDu8)] {
        for opcode in 0..=255u8 {
            let mut program = Vec::new();
            if let Some(p) = prefix {
                program.push(p);
            }
            program.extend_from_slice(&[opcode, 0x01, 0x02, 0x03]);
            let mut cpu = cpu_with(&program);
            cpu.sp = 0x8000;
            cpu.a = 0x3C;
            cpu.f.set_byte(0xD7);
            let result = cpu.step();
            assert!(result.is_ok(), "{prefix:?} {opcode:02X}: {result:?}");
            assert!(cpu.q == cpu.f.byte() || cpu.q == 0, "{prefix:?} {opcode:02X}");
        }
    }
}

#[test]
fn q_follows_the_last_flag_write() {
    // ADD A,1 writes the flags; LD B,A does not.
    let mut cpu = cpu_with(&[0xC6, 0x01, 0x47]);
    cpu.step().unwrap();
    assert_eq!(cpu.q, cpu.f.byte());
    cpu.step().unwrap();
    assert_eq!(cpu.q, 0);
}

#[test]
fn r_keeps_bit_7_and_counts_low_bits() {
    let mut cpu = cpu_with(&[0x00, 0x00]);
    cpu.r = 0xFF;
    cpu.step().unwrap();
    assert_eq!(cpu.r, 0x80);
    cpu.step().unwrap();
    assert_eq!(cpu.r, 0x81);
}

#[test]
fn the_index_table_refuses_a_prefix_byte() {
    let mut cpu = cpu_with(&[0x00, 0x00, 0x00]);
    cpu.pc = 2;
    assert_eq!(
        cpu.execute_index_opcode(0xDD, 0xFD),
        Err(Fault::UnhandledIndexOpcode {
            prefix: 0xDD,
            opcode: 0xFD,
            pc: 0
        })
    );
}

#[test]
fn an_io_error_becomes_a_run_error() {
    let error = std::io::Error::new(std::io::ErrorKind::Other, "sink closed");
    assert!(matches!(RunError::from(error), RunError::Io(_)));
}

#[test]
fn restoring_the_captured_state_changes_nothing() {
    let mut cpu = cpu_with(&[0x3E, 0x99, 0xFB, 0x76]);
    cpu.step().unwrap();
    cpu.step().unwrap();
    cpu.request_maskable_interrupt(0x10);
    let state = cpu.capture_state();
    cpu.restore_state(&state);
    assert_eq!(cpu.capture_state(), state);
    assert_eq!(cpu.last_instruction_bytes(), &[0xFB]);
}

#[test]
fn a_maskable_request_stays_pending_until_taken() {
    // NOP; NOP; EI; NOP; NOP with a request latched while IFF1 is clear.
    let mut cpu = cpu_with(&[0x00, 0x00, 0xFB, 0x00, 0x00]);
    cpu.sp = 0x8000;
    cpu.im = 1;
    cpu.request_maskable_interrupt(0xFF);
    for _ in 0..2 {
        assert_eq!(cpu.step(), Ok(4));
        assert!(cpu.maskable_interrupt_pending());
        assert_eq!(cpu.capture_state().maskable_interrupt_vector, Some(0xFF));
    }
    // EI, then the instruction its delay lets through: still pending.
    for _ in 0..2 {
        assert_eq!(cpu.step(), Ok(4));
        assert!(cpu.maskable_interrupt_pending());
    }
    // Taken at the next boundary, and gone.
    assert_eq!(cpu.step(), Ok(13));
    assert_eq!(cpu.pc, 0x0038);
    assert!(!cpu.maskable_interrupt_pending());
}

#[test]
fn a_prefix_before_a_base_instruction_adds_four_t_states() {
    for (op, t) in [(0x00u8, 4u32), (0x47, 4), (0x78, 4), (0x80, 4), (0x3E, 7), (0x01, 10)] {
        let mut plain = cpu_with(&[op, 0x34, 0x12]);
        let mut prefixed = cpu_with(&[0xDD, op, 0x34, 0x12]);
        assert_eq!(plain.step(), Ok(t));
        assert_eq!(prefixed.step(), Ok(t + 4));
        let mut expected = plain.capture_state();
        expected.pc += 1;
        expected.r = prefixed.capture_state().r;
        assert_eq!(prefixed.capture_state(), expected);
    }
}

#[test]
fn faults_and_run_errors_have_their_messages() {
    assert_eq!(
        Fault::UnhandledIndexOpcode { prefix: 0xDD, opcode: 0xDD, pc: 0x0A1 }.message(),
        "unhandled DD-prefixed opcode 0xDD at PC 0x00A1"
    );
    assert_eq!(
        Fault::UnhandledOpcode { opcode: 0x0F, pc: 0xBEEF }.message(),
        "unhandled opcode 0x0F at PC 0xBEEF"
    );
    assert_eq!(
        Fault::Im0NonRstVector(0x3E).message(),
        "IM 0 currently supports only device-supplied RST opcodes (got 0x3E)"
    );
    assert_eq!(
        RunError::UnsupportedBdosFunction(17).message(),
        "cpm-minimal: unsupported BDOS function 17 at PC 0x0005"
    );
    let io = std::io::Error::new(std::io::ErrorKind::Other, "disk full");
    assert_eq!(RunError::Io(io).message(), "disk full");
}
