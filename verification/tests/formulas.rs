//! One exact expected value for each instruction formula.

use z80_rust::{Bus, Z80};

struct Flat(Box<[u8; 0x10000]>);

impl Bus for Flat {
    fn read_byte(&mut self, addr: u16) -> u8 {
        self.0[usize::from(addr)]
    }
    fn write_byte(&mut self, addr: u16, value: u8) {
        self.0[usize::from(addr)] = value;
    }
    fn read_port(&mut self, _addr: u16) -> u8 {
        0x5A
    }
    fn write_port(&mut self, _addr: u16, _value: u8) {}
}

fn cpu_with(program: &[u8]) -> Z80<Flat> {
    let mut memory = Box::new([0u8; 0x10000]);
    memory[..program.len()].copy_from_slice(program);
    Z80::new(Flat(memory))
}

/// Run one instruction from a fresh CPU prepared by `setup`.
fn run(program: &[u8], setup: impl FnOnce(&mut Z80<Flat>)) -> (Z80<Flat>, u32) {
    let mut cpu = cpu_with(program);
    setup(&mut cpu);
    let t = cpu.step().expect("instruction runs");
    (cpu, t)
}

#[test]
fn shifts_set_carry_from_the_bit_shifted_out() {
    for (opcode, result, flags) in [(0x20u8, 0x02u8, 0x01u8), (0x28, 0xC0, 0x85), (0x30, 0x03, 0x05), (0x38, 0x40, 0x01)] {
        let (cpu, t) = run(&[0xCB, opcode], |cpu| cpu.b = 0x81);
        assert_eq!(t, 8);
        assert_eq!(cpu.b, result, "opcode {opcode:02X}");
        assert_eq!(cpu.f.byte(), flags, "opcode {opcode:02X}");
    }
}

#[test]
fn rotate_accumulator_keeps_sign_zero_and_parity() {
    let (cpu, t) = run(&[0x07], |cpu| {
        cpu.a = 0x81;
        cpu.f.set_byte(0xC4);
    });
    assert_eq!(t, 4);
    assert_eq!(cpu.a, 0x03);
    assert_eq!(cpu.f.byte(), 0xC5);
}

#[test]
fn rrd_and_rld_rotate_digits_through_memory() {
    let (cpu, t) = run(&[0xED, 0x67], |cpu| {
        cpu.a = 0x12;
        cpu.h = 0x01;
        cpu.bus.0[0x0100] = 0x34;
    });
    assert_eq!(t, 18);
    assert_eq!((cpu.a, cpu.bus.0[0x0100]), (0x14, 0x23));
    assert_eq!(cpu.f.byte(), 0x04);
    let (cpu, _) = run(&[0xED, 0x6F], |cpu| {
        cpu.a = 0x12;
        cpu.h = 0x01;
        cpu.bus.0[0x0100] = 0x34;
    });
    assert_eq!((cpu.a, cpu.bus.0[0x0100]), (0x13, 0x42));
    assert_eq!(cpu.f.byte(), 0x00);
    assert_eq!(cpu.wz, 0x0101);
}

#[test]
fn sixteen_bit_arithmetic_sets_its_flags() {
    let (cpu, t) = run(&[0xED, 0x4A], |cpu| {
        cpu.h = 0x7F;
        cpu.l = 0xFF;
        cpu.c = 0x01;
    });
    assert_eq!(t, 15);
    assert_eq!((cpu.h, cpu.l), (0x80, 0x00));
    assert_eq!(cpu.f.byte(), 0x94);
    assert_eq!(cpu.wz, 0x8000);

    let (cpu, _) = run(&[0xED, 0x52], |cpu| cpu.e = 0x01);
    assert_eq!((cpu.h, cpu.l), (0xFF, 0xFF));
    assert_eq!(cpu.f.byte(), 0xBB);

    let (cpu, t) = run(&[0x09], |cpu| {
        cpu.h = 0x0F;
        cpu.l = 0xFF;
        cpu.c = 0x01;
        cpu.f.set_byte(0xC4);
    });
    assert_eq!(t, 11);
    assert_eq!((cpu.h, cpu.l), (0x10, 0x00));
    assert_eq!(cpu.f.byte(), 0xD4);

    let (cpu, t) = run(&[0xDD, 0x09], |cpu| {
        cpu.ix = 0x1000;
        cpu.b = 0x10;
    });
    assert_eq!(t, 15);
    assert_eq!(cpu.ix, 0x2000);
}

#[test]
fn neg_and_cpl_complement_the_accumulator() {
    let (cpu, t) = run(&[0xED, 0x44], |cpu| cpu.a = 0x80);
    assert_eq!(t, 8);
    assert_eq!(cpu.a, 0x80);
    assert_eq!(cpu.f.byte(), 0x87);
    let (cpu, t) = run(&[0x2F], |cpu| cpu.a = 0x0F);
    assert_eq!(t, 4);
    assert_eq!(cpu.a, 0xF0);
    assert_eq!(cpu.f.byte(), 0x32);
}

#[test]
fn scf_and_ccf_take_x_and_y_from_a_and_the_flags() {
    let (cpu, _) = run(&[0x37], |cpu| cpu.a = 0x28);
    assert_eq!(cpu.f.byte(), 0x29);
    let (cpu, _) = run(&[0x3F], |cpu| cpu.f.set_byte(0x01));
    assert_eq!(cpu.f.byte(), 0x10);
}

#[test]
fn ld_a_i_copies_iff2_into_parity() {
    let (cpu, t) = run(&[0xED, 0x57], |cpu| {
        cpu.i = 0x80;
        cpu.iff2 = true;
    });
    assert_eq!(t, 9);
    assert_eq!(cpu.a, 0x80);
    assert_eq!(cpu.f.byte(), 0x84);
}

#[test]
fn bit_tests_the_named_bit() {
    let (cpu, t) = run(&[0xCB, 0x7F], |cpu| cpu.a = 0x80);
    assert_eq!(t, 8);
    assert_eq!(cpu.f.byte(), 0x90);
}

#[test]
fn ex_sp_hl_swaps_with_the_stack_top() {
    let (cpu, t) = run(&[0xE3], |cpu| {
        cpu.sp = 0x8000;
        cpu.h = 0xAB;
        cpu.l = 0xCD;
        cpu.bus.0[0x8000] = 0x34;
        cpu.bus.0[0x8001] = 0x12;
    });
    assert_eq!(t, 19);
    assert_eq!((cpu.h, cpu.l), (0x12, 0x34));
    assert_eq!((cpu.bus.0[0x8000], cpu.bus.0[0x8001]), (0xCD, 0xAB));
    assert_eq!(cpu.wz, 0x1234);
}

#[test]
fn jumps_and_restarts_set_pc() {
    let (cpu, t) = run(&[0xE9], |cpu| {
        cpu.h = 0x12;
        cpu.l = 0x34;
    });
    assert_eq!((cpu.pc, t), (0x1234, 4));
    let (cpu, t) = run(&[0xFF], |cpu| cpu.sp = 0x8000);
    assert_eq!((cpu.pc, t), (0x0038, 11));
    assert_eq!((cpu.bus.0[0x7FFF], cpu.bus.0[0x7FFE]), (0x00, 0x01));
    let (cpu, t) = run(&[0x18, 0x10], |_| {});
    assert_eq!((cpu.pc, t), (0x0012, 12));
    let (cpu, t) = run(&[0x20, 0x10], |cpu| cpu.f.set_byte(0x40));
    assert_eq!((cpu.pc, t), (0x0002, 7));
}

#[test]
fn retn_restores_iff1_from_iff2() {
    let (cpu, t) = run(&[0xED, 0x45], |cpu| {
        cpu.sp = 0x8000;
        cpu.iff2 = true;
        cpu.bus.0[0x8000] = 0x00;
        cpu.bus.0[0x8001] = 0x40;
    });
    assert_eq!(t, 14);
    assert!(cpu.iff1);
    assert_eq!(cpu.pc, 0x4000);
    let (cpu, t) = run(&[0xED, 0x5E], |_| {});
    assert_eq!((cpu.im, t), (2, 8));
}

#[test]
fn stores_of_sixteen_bits_are_little_endian() {
    let (cpu, t) = run(&[0x22, 0x00, 0x90], |cpu| {
        cpu.h = 0x12;
        cpu.l = 0x34;
    });
    assert_eq!(t, 16);
    assert_eq!((cpu.bus.0[0x9000], cpu.bus.0[0x9001]), (0x34, 0x12));
    assert_eq!(cpu.wz, 0x9001);
}

#[test]
fn in_r_c_reads_the_port_and_sets_flags() {
    // IN D,(C): 0x5A has even parity.
    let (cpu, t) = run(&[0xED, 0x50], |cpu| {
        cpu.b = 0x12;
        cpu.c = 0x34;
    });
    assert_eq!(t, 12);
    assert_eq!(cpu.d, 0x5A);
    assert_eq!(cpu.f.byte(), 0x0C);
    assert_eq!(cpu.wz, 0x1235);
}
