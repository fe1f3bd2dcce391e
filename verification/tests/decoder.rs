use accvm::assemble;
use accvm::decoder::{read_operation, DecoderError, FromByte};
use accvm::parser::{Destination, Operation, Source};

#[test]
fn test_roundtrip() {
    let text = "
im_a_label:
5F -> LED
00 -> PC.latch : if_1
lo@im_a_label -> PC.latch
hi@im_a_label -> PC
55 -> RAM.low : if_carry | if_1
FF -> RAM.high : if_1 | if_carry
im_also_a_label:
lo@im_also_a_label -> PC.latch";
    let bytecode = assemble(text.as_bytes()).unwrap();
    let mut program_counter = 0;
    let mut ops = Vec::new();
    while program_counter < bytecode.len() {
        let (op, advance) = read_operation(&bytecode, program_counter).unwrap();
        ops.push(op);
        program_counter += advance;
    }
    let expected_ops = vec![
        Operation {
            src: Source::Accumulator,
            dest: Destination::Accumulator,
            cond_1: false,
            cond_carry: false,
        },
        Operation {
            src: Source::Operand(0x5F),
            dest: Destination::Led,
            cond_1: false,
            cond_carry: false,
        },
        Operation {
            src: Source::Operand(0x00),
            dest: Destination::ProgramCounterLatch,
            cond_1: true,
            cond_carry: false,
        },
        Operation {
            src: Source::Operand(0x01),
            dest: Destination::ProgramCounterLatch,
            cond_1: false,
            cond_carry: false,
        },
        Operation {
            src: Source::Operand(0x00),
            dest: Destination::ProgramCounter,
            cond_1: false,
            cond_carry: false,
        },
        Operation {
            src: Source::Operand(0x55),
            dest: Destination::MemAddressLo,
            cond_1: true,
            cond_carry: true,
        },
        Operation {
            src: Source::Operand(0xFF),
            dest: Destination::MemAddressHi,
            cond_1: true,
            cond_carry: true,
        },
        Operation {
            src: Source::Operand(13),
            dest: Destination::ProgramCounterLatch,
            cond_1: false,
            cond_carry: false,
        },
    ];
    assert_eq!(ops, expected_ops)
}

#[test]
fn test_source_from_byte() {
    assert_eq!(Source::from_byte(0b00_0011_00), Ok(Source::Expansion));
    assert_eq!(Source::from_byte(0b01_0011_00), Ok(Source::Accumulator));
    assert_eq!(Source::from_byte(0b10_0011_00), Ok(Source::Memory));
    assert_eq!(Source::from_byte(0b11_0011_00), Ok(Source::Operand(0)));
}

#[test]
fn test_destination_from_byte() {
    assert_eq!(Destination::from_byte(0b00_0000_00), Ok(Destination::Memory));
    assert_eq!(Destination::from_byte(0b00_0101_00), Ok(Destination::ProgramCounter));
    assert_eq!(Destination::from_byte(0b00_1000_00), Ok(Destination::Serial));
    assert_eq!(Destination::from_byte(0b00_1100_00), Ok(Destination::ExpansionSelect));
    assert_eq!(
        Destination::from_byte(0b00_1101_00),
        Err(DecoderError::UnrecognizedDestination)
    );
    assert_eq!(
        Destination::from_byte(0b00_1111_00),
        Err(DecoderError::UnrecognizedDestination)
    );
}

#[test]
fn test_read_past_end() {
    // Reading at the buffer's end, or the immediate byte of a two-byte
    // operation that the buffer cuts off, is an invalid read.
    let buf = [0x4C, 0b11_0011_00];
    assert_eq!(read_operation(&buf, 2), Err(DecoderError::InvalidRead));
    assert_eq!(read_operation(&buf, 1), Err(DecoderError::InvalidRead));
    assert_eq!(read_operation(&buf, 7), Err(DecoderError::InvalidRead));
}

#[test]
fn test_immediate_presence_by_tag_only() {
    // Only the two high bits decide that a follow byte exists.
    let buf = [0b11_1001_00, 0xAB];
    let (op, advance) = read_operation(&buf, 0).unwrap();
    assert_eq!(advance, 2);
    assert_eq!(op.src, Source::Operand(0xAB));
    let buf1 = [0b10_1001_00, 0xAB];
    let (op1, advance1) = read_operation(&buf1, 0).unwrap();
    assert_eq!(advance1, 1);
    assert_eq!(op1.src, Source::Memory);
}
