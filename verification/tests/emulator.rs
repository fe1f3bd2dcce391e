use accvm::assemble;
use accvm::decoder::DecoderError;
use accvm::emulator::{
    Accumulator, Emulator, EmulatorError, Led, Memory, ProgramCounter, Serial,
};
use accvm::parser::{Destination, Source};

#[test]
fn test_program_counter() {
    let mut pc = ProgramCounter::default();
    pc.latch(0x5F);
    assert_eq!(pc.get(), 0x0000);
    pc.jump(0xA7);
    assert_eq!(pc.get(), 0x5FA7);
    pc.advance(0x02);
    assert_eq!(pc.get(), 0x5FA9);
}

#[test]
fn test_accumulator() {
    let mut acc = Accumulator::default();
    assert_eq!(acc.get(), 0x00);
    acc.set(0b10100101);
    acc.nand(0b01101110);
    assert_eq!(acc.get(), 0b11011011);
    acc.set(0x5F);
    assert!(acc.add(0xF0));
    assert_eq!(acc.get(), 0x4F);
}

#[test]
fn test_memory() {
    let mut mem = Memory::default();
    assert_eq!(mem.address(), 0x0000);
    mem.latch_high(0xFF);
    assert_eq!(mem.address(), 0xFF00);
    assert_eq!(mem.read(), 0x00);
    mem.write(0x57);
    assert_eq!(mem.read(), 0x57);
    mem.latch_low(0x88);
    assert_eq!(mem.address(), 0xFF88);
    assert_eq!(mem.read(), 0x00);
    mem.write(0x55);
    assert_eq!(mem.read(), 0x55);
}

#[test]
fn test_serial_queues() {
    let mut ser = Serial::new();
    assert_eq!(ser.read(), None);
    ser.input.push(0x41);
    ser.input.push(0x42);
    assert_eq!(ser.read(), Some(0x41));
    assert_eq!(ser.read(), Some(0x42));
    assert_eq!(ser.read(), None);
    ser.write(0x43);
    ser.write(0x44);
    assert_eq!(ser.output, vec![0x43, 0x44]);
}

#[test]
fn test_missing_initial_nop() {
    assert!(matches!(
        Emulator::from_program(vec![0x00, 0x4C]),
        Err(EmulatorError::MissingNop)
    ));
    assert!(matches!(
        Emulator::from_program(vec![]),
        Err(EmulatorError::Decoder(DecoderError::InvalidRead))
    ));
    assert!(Emulator::from_program(vec![0x4C]).is_ok());
}

#[test]
fn test_initial_state() {
    let em = Emulator::from_program(vec![0x4C, 0x00]).unwrap();
    assert_eq!(em.pc.get(), 0);
    assert_eq!(em.acc.get(), 0);
    assert!(!em.flag_1);
    assert!(!em.flag_carry);
    assert_eq!(em.led.get(), 0);
}

#[test]
fn test_accumulator_arithmetic_program() {
    // Prologue, then FF -> ACC, then 01 -> ACC.plus: the accumulator wraps
    // to zero, the add sets carry, and the prior ACC write of 0xFF set the
    // one flag.
    let program = assemble(b"FF -> ACC\n01 -> ACC.plus").unwrap();
    let mut em = Emulator::from_program(program).unwrap();
    em.step().unwrap();
    em.step().unwrap();
    em.step().unwrap();
    assert_eq!(em.acc.get(), 0x00);
    assert!(em.flag_carry);
    assert!(em.flag_1);
}

#[test]
fn test_latched_jump() {
    // Prologue, then 02 -> PC.latch, then 00 -> PC: the high byte waits in
    // the latch until the low byte lands in the counter.
    let program = assemble(b"02 -> PC.latch\n00 -> PC").unwrap();
    let mut em = Emulator::from_program(program).unwrap();
    em.step().unwrap();
    em.step().unwrap();
    em.step().unwrap();
    assert_eq!(em.pc.get(), 0x0200);
}

#[test]
fn test_illegal_at_runtime() {
    // A hand-built immediate-to-memory operation after the prologue halts
    // the run even though the assembler would never emit it.
    let mut em = Emulator::from_program(vec![0x4C, 0xC0, 0x42]).unwrap();
    em.step().unwrap();
    match em.step() {
        Err(EmulatorError::Illegal(op)) => {
            assert_eq!(op.src, Source::Operand(0x42));
            assert_eq!(op.dest, Destination::Memory);
        }
        other => panic!("expected an illegal instruction, got {:?}", other),
    }
}

#[test]
fn test_invalid_read_mid_instruction() {
    // The program counter lands on the opcode of a two-byte operation whose
    // immediate the image cuts off.
    let mut em = Emulator::from_program(vec![0x4C, 0b11_0001_00]).unwrap();
    em.step().unwrap();
    assert_eq!(
        em.step(),
        Err(EmulatorError::Decoder(DecoderError::InvalidRead))
    );
}

#[test]
fn test_pc_advance_per_step() {
    // Each step advances the counter by exactly the operation's one or two
    // bytes.
    let program = assemble(b"ACC -> LED\n5F -> LED").unwrap();
    let mut em = Emulator::from_program(program).unwrap();
    em.step().unwrap();
    assert_eq!(em.pc.get(), 1);
    em.step().unwrap();
    assert_eq!(em.pc.get(), 2);
    em.step().unwrap();
    assert_eq!(em.pc.get(), 4);
}

#[test]
fn test_one_flag_exactly_ff() {
    let program = assemble(b"FF -> ACC\nFE -> ACC").unwrap();
    let mut em = Emulator::from_program(program).unwrap();
    em.step().unwrap();
    assert!(!em.flag_1);
    em.step().unwrap();
    assert!(em.flag_1);
    em.step().unwrap();
    assert!(!em.flag_1);
}

#[test]
fn test_carry_flag_is_add_overflow() {
    let program = assemble(b"F0 -> ACC\n10 -> ACC.plus\n01 -> ACC.plus").unwrap();
    let mut em = Emulator::from_program(program).unwrap();
    em.step().unwrap();
    em.step().unwrap();
    em.step().unwrap();
    // 0xF0 + 0x10 wraps to 0 with carry.
    assert_eq!(em.acc.get(), 0x00);
    assert!(em.flag_carry);
    em.step().unwrap();
    // 0x00 + 0x01 does not overflow: carry is cleared again.
    assert_eq!(em.acc.get(), 0x01);
    assert!(!em.flag_carry);
}

#[test]
fn test_carry_set_then_reset() {
    // carry.set then carry.reset leaves carry clear, from either prior
    // state.
    let program = assemble(b"ACC -> carry.set\nACC -> carry.reset").unwrap();
    let mut em = Emulator::from_program(program).unwrap();
    em.step().unwrap();
    em.step().unwrap();
    assert!(em.flag_carry);
    em.step().unwrap();
    assert!(!em.flag_carry);

    let program2 = assemble(b"ACC -> carry.set\nACC -> carry.reset").unwrap();
    let mut em2 = Emulator::from_program(program2).unwrap();
    em2.flag_carry = true;
    em2.step().unwrap();
    em2.step().unwrap();
    em2.step().unwrap();
    assert!(!em2.flag_carry);
}

#[test]
fn test_nand_twice_truth_table() {
    // 0b1100 against 0b1010 exercises all four bit pairs; applying NAND
    // twice with the same operand satisfies the NAND equation both times.
    let a: u8 = 0b1100;
    let v: u8 = 0b1010;
    let mut acc = Accumulator { value: a };
    acc.nand(v);
    let acc1 = acc.get();
    assert_eq!(acc1, !(a & v));
    acc.nand(v);
    assert_eq!(acc.get(), !(acc1 & v));
    // And through the machine, with the flags untouched.
    let program = assemble(b"0A -> ACC.nand\n0A -> ACC.nand").unwrap();
    let mut em = Emulator::from_program(program).unwrap();
    em.acc.set(a);
    em.step().unwrap();
    em.step().unwrap();
    assert_eq!(em.acc.get(), !(a & v));
    em.step().unwrap();
    assert_eq!(em.acc.get(), !(!(a & v) & v));
    assert!(!em.flag_1);
    assert!(!em.flag_carry);
}

#[test]
fn test_conditional_execution() {
    // if_1 skips while the one flag is clear; both conditions named is a
    // disjunction.
    let program = assemble(b"55 -> LED : if_1\n66 -> LED : if_carry | if_1").unwrap();
    let mut em = Emulator::from_program(program).unwrap();
    em.step().unwrap();
    em.step().unwrap();
    assert_eq!(em.led.get(), 0);
    em.step().unwrap();
    assert_eq!(em.led.get(), 0);

    let program2 = assemble(b"55 -> LED : if_1\n66 -> LED : if_carry | if_1").unwrap();
    let mut em2 = Emulator::from_program(program2).unwrap();
    em2.flag_carry = true;
    em2.step().unwrap();
    em2.step().unwrap();
    assert_eq!(em2.led.get(), 0);
    em2.step().unwrap();
    assert_eq!(em2.led.get(), 0x66);
}

#[test]
fn test_serial_output_order() {
    // Serial bytes leave in program order.
    let program = assemble(b"48 -> SER\n49 -> SER").unwrap();
    let mut em = Emulator::from_program(program).unwrap();
    em.step().unwrap();
    em.step().unwrap();
    em.step().unwrap();
    assert_eq!(em.ser.output, vec![0x48, 0x49]);
}

#[test]
fn test_memory_through_machine() {
    // Write through the address latches, then read the cell back.
    let program = assemble(b"10 -> RAM.low\n00 -> RAM.high\n77 -> ACC\nACC -> RAM\n00 -> ACC\nRAM -> ACC")
        .unwrap();
    let mut em = Emulator::from_program(program).unwrap();
    for _ in 0..7 {
        em.step().unwrap();
    }
    assert_eq!(em.acc.get(), 0x77);
    assert_eq!(em.mem.values[0x10], 0x77);
}

#[test]
fn test_expansion_select_is_noop() {
    // A push to the expansion select leaves every register as it was.
    let mut em = Emulator::from_program(vec![0x4C, 0b01_1100_00]).unwrap();
    em.step().unwrap();
    em.step().unwrap();
    assert_eq!(em.acc.get(), 0);
    assert_eq!(em.led.get(), 0);
    assert_eq!(em.pc.get(), 2);
}
