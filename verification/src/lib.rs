//! Toolchain for a small 8-bit accumulator machine: an assembler that turns
//! line-oriented symbolic source into flat bytecode, a decoder for that
//! bytecode, and an emulator that executes it against an explicit machine
//! model (accumulator, 16-bit program counter with a latch, byte-addressable
//! RAM with two address latches, carry and "one" flags, an LED port and a
//! byte-oriented serial port).
//!
//! The crate root assembles whole source texts: it splits the text into
//! lines, parses each line, prepends the synthetic `ACC -> ACC` prologue
//! (the initial NOP every valid image must begin with), and hands the
//! statements to the two-pass assembler.

use vstd::prelude::*;

pub mod assembler;
pub mod decoder;
pub mod emulator;
pub mod parser;

use assembler::{op_byte, pass1, spec_assemble, stmts_view, AsmErrView, AssemblerError};
use parser::{
    run_len, spec_parse_line, Destination, OpView, Operation, Source, SrcView,
    Statement, StmtView,
};

verus! {

use vstd::slice::{slice_subrange, slice_to_vec};

broadcast use vstd::seq_lib::lemma_seq_skip_of_skip;

/// An error of assembling a source text: a line the parser cannot read, or
/// an error of one of the two assembler passes.  Lines are numbered from 1;
/// the synthetic prologue is line 0.
#[derive(Debug, Clone, PartialEq)]
pub enum AssembleError {
    Parse { line: usize },
    Assembler(AssemblerError),
}

/// Mathematical form of an `AssembleError`.
pub enum AssembleErrView {
    Parse { line: int },
    Assembler(AsmErrView),
}

impl View for AssembleError {
    type V = AssembleErrView;

    open spec fn view(&self) -> AssembleErrView {
        match self {
            AssembleError::Parse { line } => AssembleErrView::Parse { line: *line as int },
            AssembleError::Assembler(e) => AssembleErrView::Assembler(e@),
        }
    }
}

/// The view of a text-level assembly result.
pub open spec fn assemble_result_view(r: Result<Vec<u8>, AssembleError>) -> Result<
    Seq<u8>,
    AssembleErrView,
> {
    match r {
        Ok(bytes) => Ok(bytes@),
        Err(e) => Err(e@),
    }
}

/// A carriage return at the end of a line is part of the line break, not of
/// the line.
pub open spec fn strip_cr(s: Seq<u8>) -> Seq<u8> {
    if s.len() > 0 && s.last() == 13 {
        s.drop_last()
    } else {
        s
    }
}

/// The lines of a text: split at each newline byte, a carriage return
/// directly before a newline belongs to the break, and a final newline ends
/// the last line rather than opening an empty one.
pub open spec fn spec_lines(text: Seq<u8>) -> Seq<Seq<u8>>
    decreases text.len(),
    via spec_lines_decreases
{
    if text.len() == 0 {
        Seq::empty()
    } else {
        let n = run_len(text, |b: u8| b != 10);
        if n >= text.len() {
            seq![text]
        } else {
            seq![strip_cr(text.take(n))] + spec_lines(text.skip(n + 1))
        }
    }
}

#[via_fn]
proof fn spec_lines_decreases(text: Seq<u8>) {
    parser::lemma_run_len_bounds(text, |b: u8| b != 10);
}

/// The statement every image begins with: the synthetic `ACC -> ACC` NOP,
/// reported as line 0.
pub open spec fn prologue_stmt() -> (StmtView, int) {
    (
        StmtView::Operation(
            OpView {
                src: SrcView::Accumulator,
                dest: Destination::Accumulator,
                cond_1: false,
                cond_carry: false,
            },
        ),
        0,
    )
}

/// The statements of the lines from `i` on, each tagged with its 1-based
/// line number; the first unreadable line is a parse error.
pub open spec fn spec_parse_statements(lines: Seq<Seq<u8>>, i: int) -> Result<
    Seq<(StmtView, int)>,
    AssembleErrView,
>
    decreases lines.len() - i,
{
    if i < 0 || i >= lines.len() {
        Ok(Seq::empty())
    } else {
        match spec_parse_line(lines[i]) {
            None => Err(AssembleErrView::Parse { line: i + 1 }),
            Some((st, _)) => match spec_parse_statements(lines, i + 1) {
                Err(e) => Err(e),
                Ok(tail) => match st {
                    None => Ok(tail),
                    Some(stmt) => Ok(seq![(stmt, i + 1)] + tail),
                },
            },
        }
    }
}

/// Assembling a whole text: parse every line, put the prologue first, run
/// the two passes.
pub open spec fn spec_assemble_text(text: Seq<u8>) -> Result<Seq<u8>, AssembleErrView> {
    match spec_parse_statements(spec_lines(text), 0) {
        Err(e) => Err(e),
        Ok(stmts) => match spec_assemble(seq![prologue_stmt()] + stmts) {
            Ok(bytes) => Ok(bytes),
            Err(e) => Err(AssembleErrView::Assembler(e)),
        },
    }
}

/// The view of a line list.
pub open spec fn lines_view(lines: Seq<Vec<u8>>) -> Seq<Seq<u8>> {
    lines.map_values(|l: Vec<u8>| l@)
}

/// Splits a text into its lines.
fn split_lines(text: &[u8]) -> (r: Vec<Vec<u8>>)
    ensures
        lines_view(r@) == spec_lines(text@),
{
    let mut lines: Vec<Vec<u8>> = Vec::new();
    let mut pos: usize = 0;
    proof {
        assert(text@.skip(0) =~= text@);
        assert(lines_view(lines@) + spec_lines(text@) =~= spec_lines(text@));
    }
    while pos < text.len()
        invariant
            0 <= pos <= text@.len(),
            spec_lines(text@) == lines_view(lines@) + spec_lines(text@.skip(pos as int)),
        decreases text@.len() - pos,
    {
        let ghost rem = text@.skip(pos as int);
        let mut j = pos;
        while j < text.len() && text[j] != 10
            invariant
                pos <= j <= text@.len(),
                forall|k: int| pos <= k < j ==> text@[k] != 10,
            decreases text@.len() - j,
        {
            j += 1;
        }
        proof {
            assert forall|k: int| 0 <= k < j - pos implies rem[k] != 10 by {
                assert(rem[k] == text@[pos + k]);
            }
            if j < text@.len() {
                assert(rem[j - pos] == text@[j as int]);
            }
            parser::lemma_run_len_scan(rem, |b: u8| b != 10, j - pos);
        }
        let found = j < text.len();
        let end = if found && j > pos && text[j - 1] == 13 {
            j - 1
        } else {
            j
        };
        let line = slice_to_vec(slice_subrange(text, pos, end));
        let ghost lines_before = lines@;
        lines.push(line);
        proof {
            let n = j - pos;
            assert(lines_view(lines@) =~= lines_view(lines_before).push(line@));
            if j < text@.len() {
                assert(rem.take(n) =~= text@.subrange(pos as int, j as int));
                if j > pos && text@[j - 1] == 13 {
                    assert(rem.take(n).last() == 13);
                    assert(strip_cr(rem.take(n)) =~= text@.subrange(pos as int, j - 1));
                } else {
                    assert(strip_cr(rem.take(n)) =~= text@.subrange(pos as int, j as int));
                }
                assert(rem.skip(n + 1) =~= text@.skip(j + 1));
                assert(spec_lines(rem) == seq![line@] + spec_lines(text@.skip(j + 1)));
                assert(lines_view(lines@) + spec_lines(text@.skip(j + 1)) =~= lines_view(
                    lines_before,
                ) + spec_lines(rem));
            } else {
                assert(rem =~= text@.subrange(pos as int, j as int));
                assert(spec_lines(rem) == seq![line@]);
                assert(text@.skip(j as int) =~= Seq::<u8>::empty());
                assert(lines_view(lines@) + spec_lines(text@.skip(j as int)) =~= lines_view(
                    lines_before,
                ) + spec_lines(rem));
            }
        }
        pos = if found {
            j + 1
        } else {
            j
        };
    }
    proof {
        assert(text@.skip(pos as int) =~= Seq::<u8>::empty());
        assert(lines_view(lines@) + spec_lines(Seq::<u8>::empty()) =~= lines_view(lines@));
    }
    lines
}

/// Assembles a source text into a bytecode image: the synthetic prologue
/// byte `0x4C` first, then the code of every statement, with labels
/// resolved.  Returns exactly what the spec-level assembly of the text
/// returns: the first unreadable line as a parse error, then pass 1's and
/// pass 2's errors in their order.
pub fn assemble(text: &[u8]) -> (r: Result<Vec<u8>, AssembleError>)
    ensures
        assemble_result_view(r) == spec_assemble_text(text@),
{
    let lines = split_lines(text);
    let ghost lv = spec_lines(text@);
    let mut statements: Vec<(Statement, usize)> = Vec::new();
    statements.push(
        (
            Statement::Operation(
                Operation {
                    src: Source::Accumulator,
                    dest: Destination::Accumulator,
                    cond_carry: false,
                    cond_1: false,
                },
            ),
            0,
        ),
    );
    proof {
        assert(stmts_view(statements@) =~= seq![prologue_stmt()]);
    }
    let mut i: usize = 0;
    while i < lines.len()
        invariant
            lv == spec_lines(text@),
            lv == lines_view(lines@),
            0 <= i <= lines@.len(),
            match spec_parse_statements(lv, i as int) {
                Ok(tail) => spec_parse_statements(lv, 0) matches Ok(all) && seq![prologue_stmt()]
                    + all == stmts_view(statements@) + tail,
                Err(e) => spec_parse_statements(lv, 0) == Err::<Seq<(StmtView, int)>, _>(e),
            },
        decreases lines@.len() - i,
    {
        let line = vstd::slice::slice_index_get(lines.as_slice(), i);
        proof {
            assert(lv[i as int] == line@);
        }
        match parser::parse_line(line.as_slice()) {
            Err(_) => {
                return Err(AssembleError::Parse { line: i + 1 });
            },
            Ok((_, None)) => {},
            Ok((_, Some(stmt))) => {
                let ghost stmts_before = statements@;
                statements.push((stmt, i + 1));
                proof {
                    assert(stmts_view(statements@) =~= stmts_view(stmts_before).push(
                        (stmt@, i + 1),
                    ));
                    if spec_parse_statements(lv, i + 1) is Ok {
                        let tail1 = spec_parse_statements(lv, i + 1)->Ok_0;
                        assert(stmts_view(stmts_before) + (seq![(stmt@, i + 1)] + tail1)
                            =~= stmts_view(statements@) + tail1);
                    }
                }
            },
        }
        i += 1;
    }
    proof {
        let all = spec_parse_statements(lv, 0)->Ok_0;
        assert(stmts_view(statements@) + Seq::<(StmtView, int)>::empty() =~= stmts_view(
            statements@,
        ));
        assert(seq![prologue_stmt()] + all == stmts_view(statements@));
    }
    match assembler::assemble(statements.as_slice()) {
        Ok(bytes) => Ok(bytes),
        Err(e) => Err(AssembleError::Assembler(e)),
    }
}

// ---------------------------------------------------------------------------
// Laws of whole-text assembly.
// ---------------------------------------------------------------------------

/// Law: every image the assembler produces begins with the prologue byte
/// `0x4C` — the encoded synthetic `ACC -> ACC` NOP that the emulator
/// demands at load.
pub proof fn lemma_image_begins_with_nop(text: Seq<u8>)
    requires
        spec_assemble_text(text) is Ok,
    ensures
        spec_assemble_text(text)->Ok_0.len() >= 1,
        spec_assemble_text(text)->Ok_0[0] == 0x4C,
{
    let parsed = spec_parse_statements(spec_lines(text), 0)->Ok_0;
    let stmts = seq![prologue_stmt()] + parsed;
    let op = prologue_stmt().0->Operation_0;
    assert(op_byte(op) == 0x4C) by {
        assert(0x40u8 | 0x0C | 0 | 0 == 0x4C) by (bit_vector);
    }
    let labels = pass1(stmts)->Ok_0;
    let bytes = spec_assemble_text(text)->Ok_0;
    let tail = assembler::pass2_from(stmts, 1, labels)->Ok_0;
    assert(stmts[0] == prologue_stmt());
    assert(bytes == seq![op_byte(op)] + Seq::<u8>::empty() + tail);
    assert(bytes[0] == 0x4C);
}

/// Law: for a text the assembler accepts, decoding the whole image yields
/// the text's operation sequence in executable form, the prologue NOP
/// first, labels erased and label references replaced by their address
/// bytes.
pub proof fn lemma_assemble_text_roundtrip(text: Seq<u8>)
    requires
        spec_assemble_text(text) is Ok,
    ensures
        ({
            let stmts = seq![prologue_stmt()] + spec_parse_statements(spec_lines(text), 0)->Ok_0;
            &&& pass1(stmts) is Ok
            &&& decoder::spec_decode_all(spec_assemble_text(text)->Ok_0, 0) == Some(
                decoder::exec_form(stmts, 0, pass1(stmts)->Ok_0),
            )
        }),
{
    let stmts = seq![prologue_stmt()] + spec_parse_statements(spec_lines(text), 0)->Ok_0;
    decoder::lemma_assemble_roundtrip(stmts);
}

} // verus!
