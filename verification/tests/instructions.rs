//! Instruction behaviour on concrete programs: results, flags, T-states,
//! and what each instruction does to memory.

use z80_rust::alu::{add16, add8, daa, dec8, inc8, sub8};
use z80_rust::flags::{parity, szp};
use z80_rust::{Bus, Flags, Z80};

struct Flat(Box<[u8; 0x10000]>);

impl Bus for Flat {
    fn read_byte(&mut self, addr: u16) -> u8 {
        self.0[usize::from(addr)]
    }
    fn write_byte(&mut self, addr: u16, value: u8) {
        self.0[usize::from(addr)] = value;
    }
    fn read_port(&mut self, addr: u16) -> u8 {
        (addr >> 8) as u8
    }
    fn write_port(&mut self, _addr: u16, _value: u8) {}
}

fn cpu_with(program: &[u8]) -> Z80<Flat> {
    let mut memory = Box::new([0u8; 0x10000]);
    memory[..program.len()].copy_from_slice(program);
    Z80::new(Flat(memory))
}

#[test]
fn add_overflow_sets_sign_half_carry_and_overflow() {
    // LD A,0x7F; ADD A,1
    let mut cpu = cpu_with(&[0x3E, 0x7F, 0xC6, 0x01]);
    assert_eq!(cpu.step(), Ok(7));
    assert_eq!(cpu.step(), Ok(7));
    assert_eq!(cpu.a, 0x80);
    assert_eq!(cpu.f.byte(), 0x94);
    assert_eq!(cpu.q, 0x94);
}

#[test]
fn sub_borrow_sets_every_arithmetic_flag() {
    // SUB 1 from A = 0
    let mut cpu = cpu_with(&[0xD6, 0x01]);
    assert_eq!(cpu.step(), Ok(7));
    assert_eq!(cpu.a, 0xFF);
    assert_eq!(cpu.f.byte(), 0xBB);
}

#[test]
fn alu_functions_give_exact_results() {
    assert_eq!(add8(0xFF, 0x01, 0), (0x00, 0x51));
    assert_eq!(add8(0x0F, 0x00, 1), (0x10, 0x10));
    assert_eq!(sub8(0x10, 0x01, 0), (0x0F, 0x1A));
    assert_eq!(sub8(0x80, 0x01, 0), (0x7F, 0x3E));
    assert_eq!(inc8(0x7F, 0x01), (0x80, 0x95));
    assert_eq!(dec8(0x01, 0x00), (0x00, 0x42));
    assert_eq!(add16(0xFFFF, 0x0001, 0), (0x0000, 0x51));
    assert_eq!(parity(0x03), 1);
    assert_eq!(parity(0x07), 0x00);
    assert_eq!(szp(0x00), 0x44);
    assert_eq!(szp(0xA8), 0xA8);
}

#[test]
fn daa_corrects_a_bcd_addition() {
    // 15 + 27 = 42 in BCD.
    let mut cpu = cpu_with(&[0x3E, 0x15, 0xC6, 0x27, 0x27]);
    cpu.step().unwrap();
    cpu.step().unwrap();
    assert_eq!(cpu.a, 0x3C);
    assert_eq!(cpu.step(), Ok(4));
    assert_eq!(cpu.a, 0x42);
    assert_eq!(daa(0x9A, 0x00), (0x00, 0x55));
}

#[test]
fn flags_setters_touch_only_their_bit() {
    let mut f = Flags::new(0x00);
    f.set_s(1);
    f.set_c(3);
    assert_eq!(f.byte(), 0x81);
    assert_eq!(f.s(), 1);
    assert_eq!(f.z(), 0);
    assert_eq!(f.c(), 1);
    f.set_xy(0xFF);
    assert_eq!(f.byte(), 0xA9);
    assert_eq!((f.x(), f.y()), (1, 1));
    f.set_s(0);
    assert_eq!(f.byte(), 0x29);
}

#[test]
fn push_pop_and_call_ret_use_the_stack() {
    // LD SP,0x8000; LD BC,0x1234; PUSH BC; POP DE; CALL 0x0010; ... ; RET at 0x10
    let mut program = vec![0x31, 0x00, 0x80, 0x01, 0x34, 0x12, 0xC5, 0xD1, 0xCD, 0x10, 0x00];
    program.resize(0x10, 0);
    program.push(0xC9);
    let mut cpu = cpu_with(&program);
    assert_eq!(cpu.step(), Ok(10));
    assert_eq!(cpu.step(), Ok(10));
    assert_eq!(cpu.step(), Ok(11));
    assert_eq!(cpu.bus.0[0x7FFF], 0x12);
    assert_eq!(cpu.bus.0[0x7FFE], 0x34);
    assert_eq!(cpu.step(), Ok(10));
    assert_eq!((cpu.d, cpu.e), (0x12, 0x34));
    assert_eq!(cpu.sp, 0x8000);
    assert_eq!(cpu.step(), Ok(17));
    assert_eq!(cpu.pc, 0x0010);
    assert_eq!(cpu.wz, 0x0010);
    assert_eq!(cpu.step(), Ok(10));
    assert_eq!(cpu.pc, 0x000B);
    assert_eq!(cpu.sp, 0x8000);
}

#[test]
fn djnz_loops_until_b_is_zero() {
    // LD B,3; DJNZ -2 (to itself)
    let mut cpu = cpu_with(&[0x06, 0x03, 0x10, 0xFE]);
    cpu.step().unwrap();
    assert_eq!(cpu.step(), Ok(13));
    assert_eq!(cpu.step(), Ok(13));
    assert_eq!(cpu.step(), Ok(8));
    assert_eq!(cpu.b, 0);
    assert_eq!(cpu.pc, 4);
}

#[test]
fn ldir_copies_a_block() {
    // LD HL,0x0100; LD DE,0x0200; LD BC,3; LDIR
    let mut program = vec![0x21, 0x00, 0x01, 0x11, 0x00, 0x02, 0x01, 0x03, 0x00, 0xED, 0xB0];
    program.resize(0x100, 0);
    program.extend_from_slice(&[0xAA, 0xBB, 0xCC]);
    let mut cpu = cpu_with(&program);
    for _ in 0..3 {
        cpu.step().unwrap();
    }
    assert_eq!(cpu.step(), Ok(21));
    assert_eq!(cpu.pc, 9);
    assert_eq!(cpu.step(), Ok(21));
    assert_eq!(cpu.step(), Ok(16));
    assert_eq!(cpu.pc, 11);
    assert_eq!(&cpu.bus.0[0x200..0x203], &[0xAA, 0xBB, 0xCC]);
    assert_eq!((cpu.b, cpu.c), (0, 0));
    assert_eq!(cpu.f.pv(), 0);
}

#[test]
fn cpir_stops_on_a_match() {
    // LD HL,0x0100; LD BC,5; LD A,0x33; CPIR
    let mut program = vec![0x21, 0x00, 0x01, 0x01, 0x05, 0x00, 0x3E, 0x33, 0xED, 0xB1];
    program.resize(0x100, 0);
    program.extend_from_slice(&[0x11, 0x22, 0x33, 0x44]);
    let mut cpu = cpu_with(&program);
    for _ in 0..3 {
        cpu.step().unwrap();
    }
    assert_eq!(cpu.step(), Ok(21));
    assert_eq!(cpu.step(), Ok(21));
    assert_eq!(cpu.step(), Ok(16));
    assert_eq!(cpu.f.z(), 1);
    assert_eq!((cpu.h, cpu.l), (0x01, 0x03));
    assert_eq!((cpu.b, cpu.c), (0, 2));
}

#[test]
fn exchanges_twice_restore_the_registers() {
    // LD BC,0x1111; EXX; LD BC,0x2222; EXX; EX AF,AF'; EX AF,AF'
    let mut cpu = cpu_with(&[0x01, 0x11, 0x11, 0xD9, 0x01, 0x22, 0x22, 0xD9, 0x08, 0x08]);
    cpu.a = 0x55;
    cpu.step().unwrap();
    assert_eq!(cpu.step(), Ok(4));
    cpu.step().unwrap();
    assert_eq!(cpu.bc_, 0x1111);
    cpu.step().unwrap();
    assert_eq!((cpu.b, cpu.c), (0x11, 0x11));
    assert_eq!(cpu.bc_, 0x2222);
    cpu.step().unwrap();
    assert_eq!(cpu.a, 0x00);
    cpu.step().unwrap();
    assert_eq!(cpu.a, 0x55);
}

#[test]
fn indexed_bit_operations_address_ix_plus_d() {
    // LD IX,0x0100; SET 3,(IX+2); RLC (IX+2); BIT 4,(IX+2)
    let mut program = vec![
        0xDD, 0x21, 0x00, 0x01, 0xDD, 0xCB, 0x02, 0xDE, 0xDD, 0xCB, 0x02, 0x06, 0xDD, 0xCB,
        0x02, 0x66,
    ];
    program.resize(0x102, 0);
    program.push(0x01);
    let mut cpu = cpu_with(&program);
    assert_eq!(cpu.step(), Ok(14));
    assert_eq!(cpu.step(), Ok(23));
    assert_eq!(cpu.bus.0[0x102], 0x09);
    assert_eq!(cpu.last_instruction_bytes(), &[0xDD, 0xCB, 0x02, 0xDE]);
    assert_eq!(cpu.step(), Ok(23));
    assert_eq!(cpu.bus.0[0x102], 0x12);
    assert_eq!(cpu.step(), Ok(20));
    assert_eq!(cpu.f.z(), 0);
    assert_eq!(cpu.r, 8);
}

#[test]
fn in_and_out_use_the_port_address() {
    // LD A,0x12; IN A,(0x34): the port address's high byte is A.
    let mut cpu = cpu_with(&[0x3E, 0x12, 0xDB, 0x34]);
    cpu.step().unwrap();
    assert_eq!(cpu.step(), Ok(11));
    assert_eq!(cpu.a, 0x12);
    assert_eq!(cpu.wz, 0x1235);
}

#[test]
fn fd_prefix_before_ed_is_a_stray() {
    // FD ED 44: NEG with a stray FD in front.
    let mut cpu = cpu_with(&[0xFD, 0xED, 0x44]);
    cpu.a = 1;
    assert_eq!(cpu.step(), Ok(12));
    assert_eq!(cpu.a, 0xFF);
    assert_eq!(cpu.last_instruction_bytes(), &[0xFD, 0xED, 0x44]);
}
