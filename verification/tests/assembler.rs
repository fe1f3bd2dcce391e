use accvm::assembler::{self, AssemblerError, IntoInstruction};
use accvm::parser::{Destination, Operation, Source, Statement};
use accvm::{assemble, AssembleError};

#[test]
fn test_operation_bits() {
    assert_eq!(
        Operation {
            src: Source::Accumulator,
            dest: Destination::Accumulator,
            cond_1: false,
            cond_carry: false
        }
        .instruction_bits(),
        0b01_0011_00
    );
    assert_eq!(
        Operation {
            src: Source::Operand(0x00),
            dest: Destination::CarrySet,
            cond_1: false,
            cond_carry: true
        }
        .instruction_bits(),
        0b11_1010_01
    );
}

#[test]
fn assembler_test_assembler() {
    let instructions = [
        (
            Statement::Operation(Operation {
                src: Source::Accumulator,
                dest: Destination::Accumulator,
                cond_carry: false,
                cond_1: false,
            }),
            1,
        ),
        (Statement::Label(b"loop".to_vec()), 2),
        (
            Statement::Operation(Operation {
                src: Source::LabelLo(b"loop".to_vec()),
                dest: Destination::ProgramCounterLatch,
                cond_carry: false,
                cond_1: false,
            }),
            2,
        ),
        (
            Statement::Operation(Operation {
                src: Source::LabelHi(b"loop".to_vec()),
                dest: Destination::ProgramCounter,
                cond_carry: false,
                cond_1: false,
            }),
            3,
        ),
    ];
    let expected_bytecode = vec![
        0b01_0011_00,
        0b11_0100_00,
        0b0000000001,
        0b11_0101_00,
        0b0000000000,
    ];
    assert_eq!(assembler::assemble(&instructions), Ok(expected_bytecode));
}

#[test]
fn lib_test_assembler() {
    let text = "
im_a_label:
5F -> LED
00 -> PC.latch : if_1
lo@im_a_label -> PC.latch
hi@im_a_label -> PC
55 -> RAM.low : if_carry | if_1
FF -> RAM.high : if_1 | if_carry
im_also_a_label:
lo@im_also_a_label -> PC.latch";
    let expected_bytecode = vec![
        0b01001100, 0b11100100, 0b01011111, 0b11010010, 0b00000000, 0b11010000, 0b00000001,
        0b11010100, 0b00000000, 0b11011011, 0b01010101, 0b11011111, 0b11111111, 0b11010000,
        0b00001101,
    ];
    assert_eq!(assemble(text.as_bytes()).unwrap(), expected_bytecode);
}

#[test]
fn test_assembler2() {
    let text = "
00 -> PC.latch
00 -> RAM.high
00 -> RAM.low
00 -> ACC
ACC -> RAM
main_loop:
00 -> ACC
ACC -> carry.reset
delay_loop:
01 -> ACC.plus
lo@out_of_loop -> PC : if_1
lo@delay_loop -> PC
out_of_loop:
RAM -> ACC
ACC -> LED
ACC -> carry.reset
01 -> ACC.plus
ACC -> RAM
lo@main_loop -> PC";
    let binary = vec![
        0b01_0011_00,
        0b11_0100_00,
        0b00_0000_00,
        0b11_0111_00,
        0b00_0000_00,
        0b11_0110_00,
        0b00_0000_00,
        0b11_0011_00,
        0b00_0000_00,
        0b01_0000_00,
        0b11_0011_00,
        0b00_0000_00,
        0b01_1011_00,
        0b11_0001_00,
        0b00_0000_01,
        0b11_0101_10,
        0b00_0100_11,
        0b11_0101_00,
        0b00_0011_01,
        0b10_0011_00,
        0b01_1001_00,
        0b01_1011_00,
        0b11_0001_00,
        0b00_0000_01,
        0b01_0000_00,
        0b11_0101_00,
        0b00_0010_10,
    ];
    assert_eq!(assemble(text.as_bytes()).unwrap(), binary);
}

#[test]
#[should_panic]
fn lib_test_assembler_err() {
    assemble(b"8F -> RAM").unwrap();
}

#[test]
#[should_panic]
fn lib_test_assembler_err2() {
    assemble(b"ACC.plus -> LED").unwrap();
}

#[test]
#[should_panic]
fn test_assembler_err3() {
    assemble(
        b"loop
            lo@loop -> RAM",
    )
    .unwrap();
}

#[test]
fn main_test_assembler() {
    let lines: [&str; 9] = [
        "im_a_label:",
        "5F -> LED",
        "00 -> PC.latch : if_1",
        "lo@im_a_label -> PC.latch",
        "hi@im_a_label -> PC",
        "55 -> RAM.low : if_carry | if_1",
        "FF -> RAM.high : if_1 | if_carry",
        "im_also_a_label:",
        "lo@im_also_a_label -> PC.latch",
    ];
    let text = lines.join("\n");
    let expected_bytecode = vec![
        0b01001100, 0b11100100, 0b01011111, 0b11010010, 0b00000000, 0b11010000, 0b00000001,
        0b11010100, 0b00000000, 0b11011011, 0b01010101, 0b11011111, 0b11111111, 0b11010000,
        0b00001101,
    ];
    assert_eq!(assemble(text.as_bytes()).unwrap(), expected_bytecode);
}

#[test]
#[should_panic]
fn main_test_assembler_err() {
    assemble(b"8F -> RAM").unwrap();
}

#[test]
#[should_panic]
fn main_test_assembler_err2() {
    assemble(b"ACC.plus -> LED").unwrap();
}

#[test]
fn test_repeated_label_line() {
    // A name declared twice fails pass 1, reporting the second declaration.
    let r = assemble(b"dup:\n5F -> LED\ndup:");
    assert_eq!(
        r,
        Err(AssembleError::Assembler(AssemblerError::RepeatLabel {
            label: b"dup".to_vec(),
            line: 3,
        }))
    );
}

#[test]
fn test_unrecognized_label_line() {
    // A reference to a label nobody declared fails pass 2.
    let r = assemble(b"5F -> LED\nlo@nowhere -> PC");
    assert_eq!(
        r,
        Err(AssembleError::Assembler(AssemblerError::UnrecognizedLabel {
            label: b"nowhere".to_vec(),
            line: 2,
        }))
    );
}

#[test]
fn test_forbidden_instruction_line() {
    // An immediate source aimed at memory is forbidden, for literals and
    // for label references alike.
    assert_eq!(
        assemble(b"FF -> RAM"),
        Err(AssembleError::Assembler(AssemblerError::ForbiddenInstruction { line: 1 }))
    );
    assert_eq!(
        assemble(b"l:\nlo@l -> RAM"),
        Err(AssembleError::Assembler(AssemblerError::ForbiddenInstruction { line: 2 }))
    );
}

#[test]
fn test_parse_error_line() {
    // The first unreadable line is reported with its 1-based number.
    assert_eq!(
        assemble(b"5F -> LED\nwhat is this"),
        Err(AssembleError::Parse { line: 2 })
    );
}

#[test]
fn test_emitted_length() {
    // One byte per register-like source, two per immediate source, after
    // the one-byte prologue.
    let bytes = assemble(b"ACC -> LED\n5F -> LED\nRAM -> SER\nlo@l -> ACC\nl:").unwrap();
    assert_eq!(bytes.len(), 1 + 1 + 2 + 1 + 2);
}

#[test]
fn test_label_offset_is_emitted_offset() {
    // The label's address is the offset right after the code before it:
    // prologue (1) plus one two-byte operation.
    let bytes = assemble(b"5F -> LED\nlbl:\nlo@lbl -> ACC").unwrap();
    assert_eq!(bytes, vec![0x4C, 0b11_1001_00, 0x5F, 0b11_0011_00, 0x03]);
}

#[test]
fn test_empty_text() {
    // An empty text assembles to the bare prologue; refusing an empty input
    // file is the command line's business, not the assembler's.
    assert_eq!(assemble(b""), Ok(vec![0x4C]));
}

#[test]
fn test_crlf_line_endings() {
    // A carriage return before the newline belongs to the line break.
    let unix = assemble(b"5F -> LED\n01 -> LED").unwrap();
    let dos = assemble(b"5F -> LED\r\n01 -> LED").unwrap();
    assert_eq!(unix, dos);
}

#[test]
fn test_lowercase_hex() {
    // Hex literals may use either case.
    assert_eq!(
        assemble(b"5f -> LED"),
        assemble(b"5F -> LED")
    );
    assert_eq!(assemble(b"ab -> LED").unwrap(), vec![0x4C, 0b11_1001_00, 0xAB]);
}
