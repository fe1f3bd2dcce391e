//! Bytecode decoder.
//!
//! A single byte names the operation: bits 7-6 the source tag, bits 5-2 the
//! destination code, bits 1-0 the conditions.  Only the two high bits decide
//! whether an immediate byte follows — the decoder never peeks at the
//! destination, which is what keeps the bytecode self-describing.  The
//! decoder never produces the label source forms; those exist only before
//! assembly.
//!
//! The round-trip law at the end states that decoding the output of the
//! assembler's second pass yields exactly the assembled operations, labels
//! erased and label references replaced by their address bytes.

use vstd::prelude::*;

use crate::assembler::{
    dest_bits, has_immediate, imm_bytes, op_byte, pass1, pass2_from, spec_assemble, src_bits,
};
use crate::parser::{Destination, Operation, OpView, Source, SrcView, StmtView};

verus! {

/// A failure to read an operation out of a byte buffer.
#[derive(Debug, Clone, Copy, PartialEq, Eq, Structural)]
pub enum DecoderError {
    /// The 4-bit destination code names no destination.
    UnrecognizedDestination,
    /// The operation would be read past the end of the buffer.
    InvalidRead,
}

// ---------------------------------------------------------------------------
// Decoding, as spec functions.
// ---------------------------------------------------------------------------

/// The source named by bits 7-6; tag `11` is an operand whose value arrives
/// in the following byte, so it decodes to a placeholder.
pub open spec fn spec_source_from_byte(b: u8) -> SrcView {
    if b & 0b11_0000_00 == 0b00_0000_00 {
        SrcView::Expansion
    } else if b & 0b11_0000_00 == 0b01_0000_00 {
        SrcView::Accumulator
    } else if b & 0b11_0000_00 == 0b10_0000_00 {
        SrcView::Memory
    } else {
        SrcView::Operand(0)
    }
}

/// The destination named by bits 5-2, or an error for the three codes that
/// name none.
pub open spec fn spec_dest_from_byte(b: u8) -> Result<Destination, DecoderError> {
    let code = b & 0b00_1111_00;
    if code == 0b00_0000_00 {
        Ok(Destination::Memory)
    } else if code == 0b00_0001_00 {
        Ok(Destination::AccumulatorPlus)
    } else if code == 0b00_0010_00 {
        Ok(Destination::AccumulatorNand)
    } else if code == 0b00_0011_00 {
        Ok(Destination::Accumulator)
    } else if code == 0b00_0100_00 {
        Ok(Destination::ProgramCounterLatch)
    } else if code == 0b00_0101_00 {
        Ok(Destination::ProgramCounter)
    } else if code == 0b00_0110_00 {
        Ok(Destination::MemAddressLo)
    } else if code == 0b00_0111_00 {
        Ok(Destination::MemAddressHi)
    } else if code == 0b00_1000_00 {
        Ok(Destination::Serial)
    } else if code == 0b00_1001_00 {
        Ok(Destination::Led)
    } else if code == 0b00_1010_00 {
        Ok(Destination::CarrySet)
    } else if code == 0b00_1011_00 {
        Ok(Destination::CarryReset)
    } else if code == 0b00_1100_00 {
        Ok(Destination::ExpansionSelect)
    } else {
        Err(DecoderError::UnrecognizedDestination)
    }
}

/// The operation named by one opcode byte, its operand still the
/// placeholder.
pub open spec fn spec_op_from_byte(b: u8) -> Result<OpView, DecoderError> {
    match spec_dest_from_byte(b) {
        Err(e) => Err(e),
        Ok(dest) => Ok(
            OpView {
                src: spec_source_from_byte(b),
                dest,
                cond_1: b & 0b00_0000_10 == 0b00_0000_10,
                cond_carry: b & 0b00_0000_01 == 0b00_0000_01,
            },
        ),
    }
}

/// The operation at `pc` and the bytes it occupies: the opcode byte, plus
/// the immediate byte when the source tag calls for one.  Reading past the
/// end of the buffer, at either byte, is an *invalid read*.
pub open spec fn spec_read_operation(buf: Seq<u8>, pc: int) -> Result<
    (OpView, int),
    DecoderError,
> {
    if !(0 <= pc < buf.len()) {
        Err(DecoderError::InvalidRead)
    } else {
        match spec_op_from_byte(buf[pc]) {
            Err(e) => Err(e),
            Ok(op) => if op.src is Operand {
                if pc + 1 < buf.len() {
                    Ok(
                        (
                            OpView {
                                src: SrcView::Operand(buf[pc + 1]),
                                dest: op.dest,
                                cond_1: op.cond_1,
                                cond_carry: op.cond_carry,
                            },
                            2,
                        ),
                    )
                } else {
                    Err(DecoderError::InvalidRead)
                }
            } else {
                Ok((op, 1))
            },
        }
    }
}

// ---------------------------------------------------------------------------
// Executable decoding.
// ---------------------------------------------------------------------------

/// A value a single opcode byte can name.
pub trait FromByte: Sized {
    /// The value the byte names.
    spec fn spec_from_byte(byte: u8) -> Result<Self, DecoderError>;

    /// Reads the value out of the byte.
    fn from_byte(byte: u8) -> (r: Result<Self, DecoderError>)
        ensures
            r == Self::spec_from_byte(byte),
    ;
}

impl FromByte for Source {
    open spec fn spec_from_byte(byte: u8) -> Result<Source, DecoderError> {
        if byte & 0b11_0000_00 == 0b00_0000_00 {
            Ok(Source::Expansion)
        } else if byte & 0b11_0000_00 == 0b01_0000_00 {
            Ok(Source::Accumulator)
        } else if byte & 0b11_0000_00 == 0b10_0000_00 {
            Ok(Source::Memory)
        } else {
            Ok(Source::Operand(0))
        }
    }

    fn from_byte(byte: u8) -> (r: Result<Source, DecoderError>) {
        if byte & 0b11_0000_00 == 0b00_0000_00 {
            Ok(Source::Expansion)
        } else if byte & 0b11_0000_00 == 0b01_0000_00 {
            Ok(Source::Accumulator)
        } else if byte & 0b11_0000_00 == 0b10_0000_00 {
            Ok(Source::Memory)
        } else {
            Ok(Source::Operand(0))
        }
    }
}

impl FromByte for Destination {
    open spec fn spec_from_byte(byte: u8) -> Result<Destination, DecoderError> {
        spec_dest_from_byte(byte)
    }

    fn from_byte(byte: u8) -> (r: Result<Destination, DecoderError>) {
        let code = byte & 0b00_1111_00;
        if code == 0b00_0000_00 {
            Ok(Destination::Memory)
        } else if code == 0b00_0001_00 {
            Ok(Destination::AccumulatorPlus)
        } else if code == 0b00_0010_00 {
            Ok(Destination::AccumulatorNand)
        } else if code == 0b00_0011_00 {
            Ok(Destination::Accumulator)
        } else if code == 0b00_0100_00 {
            Ok(Destination::ProgramCounterLatch)
        } else if code == 0b00_0101_00 {
            Ok(Destination::ProgramCounter)
        } else if code == 0b00_0110_00 {
            Ok(Destination::MemAddressLo)
        } else if code == 0b00_0111_00 {
            Ok(Destination::MemAddressHi)
        } else if code == 0b00_1000_00 {
            Ok(Destination::Serial)
        } else if code == 0b00_1001_00 {
            Ok(Destination::Led)
        } else if code == 0b00_1010_00 {
            Ok(Destination::CarrySet)
        } else if code == 0b00_1011_00 {
            Ok(Destination::CarryReset)
        } else if code == 0b00_1100_00 {
            Ok(Destination::ExpansionSelect)
        } else {
            Err(DecoderError::UnrecognizedDestination)
        }
    }
}

impl FromByte for Operation {
    open spec fn spec_from_byte(byte: u8) -> Result<Operation, DecoderError> {
        match spec_dest_from_byte(byte) {
            Err(e) => Err(e),
            Ok(dest) => match Source::spec_from_byte(byte) {
                Ok(src) => Ok(
                    Operation {
                        src,
                        dest,
                        cond_1: byte & 0b00_0000_10 == 0b00_0000_10,
                        cond_carry: byte & 0b00_0000_01 == 0b00_0000_01,
                    },
                ),
                Err(e) => Err(e),
            },
        }
    }

    fn from_byte(byte: u8) -> (r: Result<Operation, DecoderError>) {
        let cond_carry = byte & 0b00_0000_01 == 0b00_0000_01;
        let cond_1 = byte & 0b00_0000_10 == 0b00_0000_10;
        let src = match Source::from_byte(byte) {
            Ok(src) => src,
            Err(e) => return Err(e),
        };
        let dest = match Destination::from_byte(byte) {
            Ok(dest) => dest,
            Err(e) => return Err(e),
        };
        Ok(Operation { src, dest, cond_carry, cond_1 })
    }
}

/// Reads the operation in `buf` at `program_counter`, returning it together
/// with the number of bytes the program counter should advance by.
pub fn read_operation(buf: &[u8], program_counter: usize) -> (r: Result<
    (Operation, usize),
    DecoderError,
>)
    ensures
        match r {
            Ok((op, advance)) => spec_read_operation(buf@, program_counter as int) == Ok::<
                _,
                DecoderError,
            >((op@, advance as int)),
            Err(e) => spec_read_operation(buf@, program_counter as int) == Err::<
                (OpView, int),
                _,
            >(e),
        },
{
    if program_counter >= buf.len() {
        return Err(DecoderError::InvalidRead);
    }
    let instruction = buf[program_counter];
    let op = match Operation::from_byte(instruction) {
        Ok(op) => op,
        Err(e) => return Err(e),
    };
    match op.src {
        Source::Operand(_) => {
            if program_counter + 1 >= buf.len() {
                return Err(DecoderError::InvalidRead);
            }
            let value = buf[program_counter + 1];
            Ok(
                (
                    Operation {
                        src: Source::Operand(value),
                        dest: op.dest,
                        cond_1: op.cond_1,
                        cond_carry: op.cond_carry,
                    },
                    2,
                ),
            )
        },
        _ => Ok((op, 1)),
    }
}

// ---------------------------------------------------------------------------
// The round trip: decoding what the assembler emitted.
// ---------------------------------------------------------------------------

/// All operations of a byte buffer from `pc` to its end, or nothing if any
/// read fails.
pub open spec fn spec_decode_all(buf: Seq<u8>, pc: int) -> Option<Seq<OpView>>
    decreases buf.len() - pc,
    via spec_decode_all_decreases
{
    if pc == buf.len() {
        Some(Seq::empty())
    } else {
        match spec_read_operation(buf, pc) {
            Err(_) => None,
            Ok((op, n)) => match spec_decode_all(buf, pc + n) {
                None => None,
                Some(tail) => Some(seq![op] + tail),
            },
        }
    }
}

#[via_fn]
proof fn spec_decode_all_decreases(buf: Seq<u8>, pc: int) {
}

/// A label reference replaced by the byte it assembles to; any other source
/// stays as it is.
pub open spec fn subst_src(src: SrcView, labels: Map<Seq<u8>, u16>) -> SrcView {
    match src {
        SrcView::LabelLo(name) => SrcView::Operand(((labels[name] as int) % 256) as u8),
        SrcView::LabelHi(name) => SrcView::Operand(((labels[name] as int) / 256) as u8),
        other => other,
    }
}

/// An operation in executable form: its label references resolved.
pub open spec fn subst_op(op: OpView, labels: Map<Seq<u8>, u16>) -> OpView {
    OpView { src: subst_src(op.src, labels), dest: op.dest, cond_1: op.cond_1, cond_carry: op.cond_carry }
}

/// The executable form of a statement list: labels erased, every operation
/// with its references resolved.
pub open spec fn exec_form(
    stmts: Seq<(StmtView, int)>,
    i: int,
    labels: Map<Seq<u8>, u16>,
) -> Seq<OpView>
    decreases stmts.len() - i,
{
    if i < 0 || i >= stmts.len() {
        Seq::empty()
    } else {
        match stmts[i].0 {
            StmtView::Label(_) => exec_form(stmts, i + 1, labels),
            StmtView::Operation(op) => seq![subst_op(op, labels)] + exec_form(
                stmts,
                i + 1,
                labels,
            ),
        }
    }
}

/// Decoding one opcode byte recovers the operation's source tag,
/// destination and conditions.
proof fn lemma_op_byte_decodes(op: OpView)
    ensures
        spec_dest_from_byte(op_byte(op)) == Ok::<_, DecoderError>(op.dest),
        spec_source_from_byte(op_byte(op)) == (if has_immediate(op.src) {
            SrcView::Operand(0)
        } else {
            op.src
        }),
        (op_byte(op) & 0b00_0000_10 == 0b00_0000_10) == op.cond_1,
        (op_byte(op) & 0b00_0000_01 == 0b00_0000_01) == op.cond_carry,
{
    crate::assembler::lemma_op_byte_fields(op);
}

/// Decoding a buffer from an offset that splits it in two reads only the
/// second part.
proof fn lemma_decode_shift(chunk: Seq<u8>, rest: Seq<u8>, pc: int)
    requires
        0 <= pc,
    ensures
        spec_decode_all(chunk + rest, chunk.len() + pc) == spec_decode_all(rest, pc),
    decreases rest.len() - pc,
{
    let buf = chunk + rest;
    if pc == rest.len() {
    } else if pc > rest.len() {
        assert(spec_decode_all(buf, chunk.len() + pc) == None::<Seq<OpView>>);
    } else {
        assert(buf[chunk.len() + pc] == rest[pc]);
        if chunk.len() + pc + 1 < buf.len() {
            assert(buf[chunk.len() + pc + 1] == rest[pc + 1]);
        }
        match spec_read_operation(rest, pc) {
            Err(_) => {
                assert(spec_read_operation(buf, chunk.len() + pc) == spec_read_operation(
                    rest,
                    pc,
                ));
            },
            Ok((op, n)) => {
                assert(spec_read_operation(buf, chunk.len() + pc) == Ok::<_, DecoderError>(
                    (op, n),
                ));
                lemma_decode_shift(chunk, rest, pc + n);
            },
        }
    }
}

/// Law: the bytes of a successfully assembled statement list decode to
/// exactly the operations of the list in executable form — labels erased,
/// label references replaced by the address bytes pass 1 assigned.
pub proof fn lemma_assemble_decode_roundtrip(
    stmts: Seq<(StmtView, int)>,
    i: int,
    labels: Map<Seq<u8>, u16>,
)
    requires
        0 <= i,
        pass2_from(stmts, i, labels) is Ok,
    ensures
        spec_decode_all(pass2_from(stmts, i, labels)->Ok_0, 0) == Some(exec_form(stmts, i, labels)),
    decreases stmts.len() - i,
{
    if i >= stmts.len() {
    } else {
        lemma_assemble_decode_roundtrip(stmts, i + 1, labels);
        match stmts[i].0 {
            StmtView::Label(_) => {},
            StmtView::Operation(op) => {
                let b0 = op_byte(op);
                let imm = imm_bytes(op.src, labels, stmts[i].1)->Ok_0;
                let tail = pass2_from(stmts, i + 1, labels)->Ok_0;
                let bytes = pass2_from(stmts, i, labels)->Ok_0;
                assert(bytes == seq![b0] + imm + tail);
                lemma_op_byte_decodes(op);
                assert(bytes[0] == b0);
                if has_immediate(op.src) {
                    assert(imm.len() == 1);
                    assert(bytes[1] == imm[0]);
                    assert(spec_read_operation(bytes, 0) == Ok::<_, DecoderError>(
                        (subst_op(op, labels), 2int),
                    ));
                    assert((seq![b0] + imm) + tail =~= bytes);
                    assert((seq![b0] + imm).len() == 2);
                    lemma_decode_shift(seq![b0] + imm, tail, 0);
                    assert(spec_decode_all(bytes, 2) == spec_decode_all(tail, 0));
                } else {
                    assert(imm.len() == 0);
                    assert(spec_read_operation(bytes, 0) == Ok::<_, DecoderError>(
                        (subst_op(op, labels), 1int),
                    ));
                    assert(seq![b0] + tail =~= bytes);
                    lemma_decode_shift(seq![b0], tail, 0);
                    assert(spec_decode_all(bytes, 1) == spec_decode_all(tail, 0));
                }
            },
        }
    }
}

/// Law: for a statement list the assembler accepts, decoding the emitted
/// bytecode reproduces the statement list's operation sequence — labels
/// erased, label references replaced by the addresses pass 1 assigned.
pub proof fn lemma_assemble_roundtrip(stmts: Seq<(StmtView, int)>)
    requires
        spec_assemble(stmts) is Ok,
    ensures
        pass1(stmts) is Ok,
        spec_decode_all(spec_assemble(stmts)->Ok_0, 0) == Some(
            exec_form(stmts, 0, pass1(stmts)->Ok_0),
        ),
{
    lemma_assemble_decode_roundtrip(stmts, 0, pass1(stmts)->Ok_0);
}

} // verus!
