//! Two-pass assembler over a parsed statement list.
//!
//! Pass 1 walks the statements with a running program counter and maps each
//! label to the byte offset of the code that follows it; a name declared
//! twice is an error.  Pass 2 walks again, emits one opcode byte per
//! operation and, for an immediate source, the immediate byte — the low or
//! high half of the label address for the label forms.  An immediate source
//! aimed at memory is forbidden: the memory write needs the source byte on
//! the same cycle the opcode is fetched.
//!
//! Both passes have spec-level counterparts (`pass1_from`, `pass2_from`) and
//! `assemble` is proved to return exactly their composition.

use vstd::prelude::*;

use crate::parser::{Destination, Label, Operation, Source, SrcView, Statement, StmtView};

verus! {

use vstd::slice::{slice_index_get, slice_to_vec};

/// An error of either pass, with the 1-based source line it arose on.
#[derive(Debug, Clone, PartialEq)]
pub enum AssemblerError {
    RepeatLabel { label: Label, line: usize },
    UnrecognizedLabel { label: Label, line: usize },
    ForbiddenInstruction { line: usize },
}

/// Mathematical form of an `AssemblerError`.
pub enum AsmErrView {
    RepeatLabel { label: Seq<u8>, line: int },
    UnrecognizedLabel { label: Seq<u8>, line: int },
    ForbiddenInstruction { line: int },
}

impl View for AssemblerError {
    type V = AsmErrView;

    open spec fn view(&self) -> AsmErrView {
        match self {
            AssemblerError::RepeatLabel { label, line } => AsmErrView::RepeatLabel {
                label: label@,
                line: *line as int,
            },
            AssemblerError::UnrecognizedLabel { label, line } => AsmErrView::UnrecognizedLabel {
                label: label@,
                line: *line as int,
            },
            AssemblerError::ForbiddenInstruction { line } => AsmErrView::ForbiddenInstruction {
                line: *line as int,
            },
        }
    }
}

// ---------------------------------------------------------------------------
// The instruction encoding.
//
// One opcode byte:  bits 7-6 the source tag, bits 5-2 the destination code,
// bit 1 the "one" condition, bit 0 the carry condition.
// ---------------------------------------------------------------------------

/// The source tag in bits 7 and 6 of the opcode.  The three immediate forms
/// share the tag `11`.
pub open spec fn src_bits(src: SrcView) -> u8 {
    match src {
        SrcView::Expansion => 0b00_0000_00,
        SrcView::Accumulator => 0b01_0000_00,
        SrcView::Memory => 0b10_0000_00,
        SrcView::Operand(_) => 0b11_0000_00,
        SrcView::LabelLo(_) => 0b11_0000_00,
        SrcView::LabelHi(_) => 0b11_0000_00,
    }
}

/// The destination code in bits 5 to 2 of the opcode.
pub open spec fn dest_bits(dest: Destination) -> u8 {
    match dest {
        Destination::Memory => 0b00_0000_00,
        Destination::AccumulatorPlus => 0b00_0001_00,
        Destination::AccumulatorNand => 0b00_0010_00,
        Destination::Accumulator => 0b00_0011_00,
        Destination::ProgramCounterLatch => 0b00_0100_00,
        Destination::ProgramCounter => 0b00_0101_00,
        Destination::MemAddressLo => 0b00_0110_00,
        Destination::MemAddressHi => 0b00_0111_00,
        Destination::Serial => 0b00_1000_00,
        Destination::Led => 0b00_1001_00,
        Destination::CarrySet => 0b00_1010_00,
        Destination::CarryReset => 0b00_1011_00,
        Destination::ExpansionSelect => 0b00_1100_00,
    }
}

/// The whole opcode byte of an operation.
pub open spec fn op_byte(op: crate::parser::OpView) -> u8 {
    src_bits(op.src) | dest_bits(op.dest) | (if op.cond_1 {
        0b00_0000_10u8
    } else {
        0u8
    }) | (if op.cond_carry {
        0b00_0000_01u8
    } else {
        0u8
    })
}

/// Whether the source calls for an immediate byte after the opcode.
pub open spec fn has_immediate(src: SrcView) -> bool {
    match src {
        SrcView::Operand(_) => true,
        SrcView::LabelLo(_) => true,
        SrcView::LabelHi(_) => true,
        _ => false,
    }
}

/// Bytes an operation occupies: the opcode plus an immediate when the
/// source calls for one.
pub open spec fn op_size(src: SrcView) -> int {
    if has_immediate(src) {
        2
    } else {
        1
    }
}

/// Bytes a statement occupies; labels occupy none.
pub open spec fn stmt_size(st: StmtView) -> int {
    match st {
        StmtView::Label(_) => 0,
        StmtView::Operation(op) => op_size(op.src),
    }
}

/// Bytes the statements `i <= k < j` occupy.
pub open spec fn encoded_size_range(stmts: Seq<(StmtView, int)>, i: int, j: int) -> int
    decreases j - i,
{
    if i >= j {
        0
    } else {
        stmt_size(stmts[i].0) + encoded_size_range(stmts, i + 1, j)
    }
}

/// Bytes the statements from `i` on occupy.
pub open spec fn encoded_size_from(stmts: Seq<(StmtView, int)>, i: int) -> int {
    encoded_size_range(stmts, i, stmts.len() as int)
}

/// 16-bit wrap-around of a byte offset; programs past 64 KiB wrap rather
/// than being supported.
pub open spec fn wrap16(x: int) -> u16 {
    (x % 0x10000) as u16
}

// ---------------------------------------------------------------------------
// The two passes, as spec functions.
// ---------------------------------------------------------------------------

/// Pass 1 from statement `i` on: extend `labels` with every label declared
/// from `i` to the end, mapped to the running byte offset that starts at
/// `pc`; the first name already present is a *repeated label* error.
pub open spec fn pass1_from(
    stmts: Seq<(StmtView, int)>,
    i: int,
    labels: Map<Seq<u8>, u16>,
    pc: u16,
) -> Result<Map<Seq<u8>, u16>, AsmErrView>
    decreases stmts.len() - i,
{
    if i < 0 || i >= stmts.len() {
        Ok(labels)
    } else {
        match stmts[i].0 {
            StmtView::Label(name) => if labels.contains_key(name) {
                Err(AsmErrView::RepeatLabel { label: name, line: stmts[i].1 })
            } else {
                pass1_from(stmts, i + 1, labels.insert(name, pc), pc)
            },
            StmtView::Operation(op) => pass1_from(
                stmts,
                i + 1,
                labels,
                wrap16(pc + op_size(op.src)),
            ),
        }
    }
}

/// Pass 1 over the whole statement list.
pub open spec fn pass1(stmts: Seq<(StmtView, int)>) -> Result<Map<Seq<u8>, u16>, AsmErrView> {
    pass1_from(stmts, 0, Map::empty(), 0)
}

/// The immediate bytes a source contributes: none for a register-like
/// source, the operand itself, or the low or high half of the label's
/// address; a name that pass 1 did not see is an *unrecognized label* error.
pub open spec fn imm_bytes(src: SrcView, labels: Map<Seq<u8>, u16>, line: int) -> Result<
    Seq<u8>,
    AsmErrView,
> {
    match src {
        SrcView::Operand(b) => Ok(seq![b]),
        SrcView::LabelLo(name) => if labels.contains_key(name) {
            Ok(seq![((labels[name] as int) % 256) as u8])
        } else {
            Err(AsmErrView::UnrecognizedLabel { label: name, line })
        },
        SrcView::LabelHi(name) => if labels.contains_key(name) {
            Ok(seq![((labels[name] as int) / 256) as u8])
        } else {
            Err(AsmErrView::UnrecognizedLabel { label: name, line })
        },
        _ => Ok(Seq::empty()),
    }
}

/// Pass 2 from statement `i` on: skip labels, emit each operation's opcode
/// byte and immediate.  An unresolved label is reported before the
/// *forbidden instruction* check, which rejects an immediate source aimed
/// at memory.
pub open spec fn pass2_from(
    stmts: Seq<(StmtView, int)>,
    i: int,
    labels: Map<Seq<u8>, u16>,
) -> Result<Seq<u8>, AsmErrView>
    decreases stmts.len() - i,
{
    if i < 0 || i >= stmts.len() {
        Ok(Seq::empty())
    } else {
        match stmts[i].0 {
            StmtView::Label(_) => pass2_from(stmts, i + 1, labels),
            StmtView::Operation(op) => match imm_bytes(op.src, labels, stmts[i].1) {
                Err(e) => Err(e),
                Ok(imm) => if has_immediate(op.src) && op.dest == Destination::Memory {
                    Err(AsmErrView::ForbiddenInstruction { line: stmts[i].1 })
                } else {
                    match pass2_from(stmts, i + 1, labels) {
                        Err(e) => Err(e),
                        Ok(tail) => Ok(seq![op_byte(op)] + imm + tail),
                    }
                },
            },
        }
    }
}

/// Both passes: the bytecode of the statement list, or the first error.
pub open spec fn spec_assemble(stmts: Seq<(StmtView, int)>) -> Result<Seq<u8>, AsmErrView> {
    match pass1(stmts) {
        Err(e) => Err(e),
        Ok(labels) => pass2_from(stmts, 0, labels),
    }
}

/// The view of a statement list with line numbers.
pub open spec fn stmts_view(lines: Seq<(Statement, usize)>) -> Seq<(StmtView, int)> {
    lines.map_values(|p: (Statement, usize)| (p.0@, p.1 as int))
}

/// The view of an assembler result.
pub open spec fn asm_result_view(r: Result<Vec<u8>, AssemblerError>) -> Result<
    Seq<u8>,
    AsmErrView,
> {
    match r {
        Ok(bytes) => Ok(bytes@),
        Err(e) => Err(e@),
    }
}

// ---------------------------------------------------------------------------
// Encoding a value as opcode bits.
// ---------------------------------------------------------------------------

/// A value with a place in the opcode byte.
pub trait IntoInstruction {
    /// The bits the value contributes to the opcode.
    spec fn spec_instruction_bits(&self) -> u8;

    /// Computes the bits the value contributes to the opcode.
    fn instruction_bits(&self) -> (r: u8)
        ensures
            r == self.spec_instruction_bits(),
    ;
}

impl IntoInstruction for Source {
    open spec fn spec_instruction_bits(&self) -> u8 {
        src_bits(self@)
    }

    fn instruction_bits(&self) -> (r: u8) {
        match self {
            Source::Expansion => 0b00_0000_00,
            Source::Accumulator => 0b01_0000_00,
            Source::Memory => 0b10_0000_00,
            Source::Operand(_) => 0b11_0000_00,
            Source::LabelLo(_) => 0b11_0000_00,
            Source::LabelHi(_) => 0b11_0000_00,
        }
    }
}

impl IntoInstruction for Destination {
    open spec fn spec_instruction_bits(&self) -> u8 {
        dest_bits(*self)
    }

    fn instruction_bits(&self) -> (r: u8) {
        match self {
            Destination::Memory => 0b00_0000_00,
            Destination::AccumulatorPlus => 0b00_0001_00,
            Destination::AccumulatorNand => 0b00_0010_00,
            Destination::Accumulator => 0b00_0011_00,
            Destination::ProgramCounterLatch => 0b00_0100_00,
            Destination::ProgramCounter => 0b00_0101_00,
            Destination::MemAddressLo => 0b00_0110_00,
            Destination::MemAddressHi => 0b00_0111_00,
            Destination::Serial => 0b00_1000_00,
            Destination::Led => 0b00_1001_00,
            Destination::CarrySet => 0b00_1010_00,
            Destination::CarryReset => 0b00_1011_00,
            Destination::ExpansionSelect => 0b00_1100_00,
        }
    }
}

impl IntoInstruction for Operation {
    open spec fn spec_instruction_bits(&self) -> u8 {
        op_byte(self@)
    }

    fn instruction_bits(&self) -> (r: u8) {
        let src = self.src.instruction_bits();
        let dest = self.dest.instruction_bits();
        let if_carry: u8 = if self.cond_carry {
            0b00_0000_01
        } else {
            0
        };
        let if_one: u8 = if self.cond_1 {
            0b00_0000_10
        } else {
            0
        };
        src | dest | if_one | if_carry
    }
}

// ---------------------------------------------------------------------------
// The executable assembler.
// ---------------------------------------------------------------------------

/// The label table as executable data: the pairs of `t` are exactly the
/// entries of the map `m`.
pub open spec fn table_inv(t: Seq<(Label, u16)>, m: Map<Seq<u8>, u16>) -> bool {
    &&& forall|i: int|
        0 <= i < t.len() ==> m.contains_key(#[trigger] t[i].0@) && m[t[i].0@] == t[i].1
    &&& forall|k: Seq<u8>| #[trigger] m.contains_key(k) ==> exists|i: int|
        0 <= i < t.len() && t[i].0@ == k
}

/// Whether two byte strings hold the same bytes.
fn bytes_eq(a: &[u8], b: &[u8]) -> (r: bool)
    ensures
        r == (a@ == b@),
{
    if a.len() != b.len() {
        return false;
    }
    let mut i: usize = 0;
    while i < a.len()
        invariant
            0 <= i <= a@.len(),
            a@.len() == b@.len(),
            forall|j: int| 0 <= j < i ==> a@[j] == b@[j],
        decreases a@.len() - i,
    {
        if a[i] != b[i] {
            return false;
        }
        i += 1;
    }
    proof {
        assert(a@ =~= b@);
    }
    true
}

/// The address a name is mapped to, if pass 1 saw it.
fn lookup_label(table: &Vec<(Label, u16)>, name: &[u8], Ghost(m): Ghost<Map<Seq<u8>, u16>>) -> (r:
    Option<u16>)
    requires
        table_inv(table@, m),
    ensures
        match r {
            Some(v) => m.contains_key(name@) && m[name@] == v,
            None => !m.contains_key(name@),
        },
{
    let mut i: usize = 0;
    while i < table.len()
        invariant
            table_inv(table@, m),
            0 <= i <= table@.len(),
            forall|j: int| 0 <= j < i ==> (#[trigger] table@[j].0@) != name@,
        decreases table@.len() - i,
    {
        let entry = slice_index_get(table.as_slice(), i);
        if bytes_eq(entry.0.as_slice(), name) {
            return Some(entry.1);
        }
        i += 1;
    }
    None
}

/// Whether the source calls for an immediate byte.
fn has_immediate_src(src: &Source) -> (r: bool)
    ensures
        r == has_immediate(src@),
{
    match src {
        Source::Operand(_) => true,
        Source::LabelLo(_) => true,
        Source::LabelHi(_) => true,
        _ => false,
    }
}

/// Assembles a statement list, each statement tagged with its source line:
/// pass 1 resolves the labels, pass 2 emits the bytes.  Returns exactly what
/// the spec-level passes return, and on success as many bytes as the
/// statements' encoded sizes add up to.
pub fn assemble(lines: &[(Statement, usize)]) -> (r: Result<Vec<u8>, AssemblerError>)
    ensures
        asm_result_view(r) == spec_assemble(stmts_view(lines@)),
        r matches Ok(bytes) ==> bytes@.len() == encoded_size_from(stmts_view(lines@), 0),
{
    let ghost stmts = stmts_view(lines@);
    let mut table: Vec<(Label, u16)> = Vec::new();
    let ghost m = Map::<Seq<u8>, u16>::empty();
    let mut pc: u16 = 0;
    let mut idx: usize = 0;
    while idx < lines.len()
        invariant
            stmts == stmts_view(lines@),
            stmts.len() == lines@.len(),
            0 <= idx <= lines@.len(),
            table_inv(table@, m),
            pass1_from(stmts, idx as int, m, pc) == pass1(stmts),
        decreases lines@.len() - idx,
    {
        let pair = slice_index_get(lines, idx);
        match &pair.0 {
            Statement::Label(label) => {
                match lookup_label(&table, label.as_slice(), Ghost(m)) {
                    Some(_) => {
                        return Err(
                            AssemblerError::RepeatLabel {
                                label: slice_to_vec(label.as_slice()),
                                line: pair.1,
                            },
                        );
                    },
                    None => {
                        let ghost table_before = table@;
                        let ghost m_before = m;
                        table.push((slice_to_vec(label.as_slice()), pc));
                        proof {
                            m = m.insert(label@, pc);
                            assert forall|k: Seq<u8>| #[trigger] m.contains_key(k) implies exists|i: int| 0 <= i < table@.len() && table@[i].0@ == k by {
                                if k == label@ {
                                    assert(table@[table@.len() - 1].0@ == k);
                                } else {
                                    let i = choose|i: int| 0 <= i < table_before.len() && table_before[i].0@ == k;
                                    assert(table@[i].0@ == k);
                                }
                            }
                            assert forall|i: int| 0 <= i < table@.len() implies m.contains_key(
                                #[trigger] table@[i].0@,
                            ) && m[table@[i].0@] == table@[i].1 by {
                                if i < table@.len() - 1 {
                                    assert(table@[i] == table_before[i]);
                                    assert(m_before.contains_key(table_before[i].0@));
                                }
                            }
                        }
                    },
                }
            },
            Statement::Operation(op) => {
                let sz: u16 = if has_immediate_src(&op.src) {
                    2
                } else {
                    1
                };
                pc = pc.wrapping_add(sz);
            },
        }
        idx += 1;
    }
    assert(pass1(stmts) == Ok::<_, AsmErrView>(m));

    let mut bytecode: Vec<u8> = Vec::new();
    let mut idx: usize = 0;
    while idx < lines.len()
        invariant
            stmts == stmts_view(lines@),
            stmts.len() == lines@.len(),
            0 <= idx <= lines@.len(),
            table_inv(table@, m),
            pass1(stmts) == Ok::<_, AsmErrView>(m),
            match pass2_from(stmts, idx as int, m) {
                Ok(tail) => pass2_from(stmts, 0, m) == Ok::<_, AsmErrView>(bytecode@ + tail),
                Err(e) => pass2_from(stmts, 0, m) == Err::<Seq<u8>, _>(e),
            },
        decreases lines@.len() - idx,
    {
        let pair = slice_index_get(lines, idx);
        match &pair.0 {
            Statement::Label(_) => {},
            Statement::Operation(op) => {
                let ghost bytecode_before = bytecode@;
                bytecode.push(op.instruction_bits());
                match &op.src {
                    Source::Operand(b) => bytecode.push(*b),
                    Source::LabelLo(name) => {
                        match lookup_label(&table, name.as_slice(), Ghost(m)) {
                            Some(addr) => bytecode.push((addr % 256) as u8),
                            None => {
                                return Err(
                                    AssemblerError::UnrecognizedLabel {
                                        label: slice_to_vec(name.as_slice()),
                                        line: pair.1,
                                    },
                                );
                            },
                        }
                    },
                    Source::LabelHi(name) => {
                        match lookup_label(&table, name.as_slice(), Ghost(m)) {
                            Some(addr) => bytecode.push((addr / 256) as u8),
                            None => {
                                return Err(
                                    AssemblerError::UnrecognizedLabel {
                                        label: slice_to_vec(name.as_slice()),
                                        line: pair.1,
                                    },
                                );
                            },
                        }
                    },
                    _ => {},
                }
                if has_immediate_src(&op.src) && op.dest == Destination::Memory {
                    return Err(AssemblerError::ForbiddenInstruction { line: pair.1 });
                }
                proof {
                    let opv = op@;
                    let imm = imm_bytes(opv.src, m, stmts[idx as int].1)->Ok_0;
                    assert(bytecode@ =~= bytecode_before + seq![op_byte(opv)] + imm);
                    if pass2_from(stmts, idx as int + 1, m) is Ok {
                        let tail1 = pass2_from(stmts, idx as int + 1, m)->Ok_0;
                        assert(bytecode_before + (seq![op_byte(opv)] + imm + tail1) =~= bytecode@
                            + tail1);
                    }
                }
            },
        }
        idx += 1;
    }
    proof {
        assert(bytecode@ + Seq::<u8>::empty() =~= bytecode@);
        lemma_pass2_len(stmts, 0, m);
    }
    Ok(bytecode)
}

// ---------------------------------------------------------------------------
// Laws of the two passes.
// ---------------------------------------------------------------------------

/// Law: pass 2 emits exactly one byte for a register-like source and two
/// for an immediate one — the bytecode length is the sum of the statement
/// sizes.
/// Law: each field of an emitted opcode byte can be read back by its mask:
/// the high two bits are the source tag, bits 5 to 2 the destination code,
/// bit 1 the "one" condition and bit 0 the carry condition.
pub proof fn lemma_op_byte_fields(op: crate::parser::OpView)
    ensures
        op_byte(op) & 0b11_0000_00 == src_bits(op.src),
        op_byte(op) & 0b00_1111_00 == dest_bits(op.dest),
        op_byte(op) & 0b00_0000_10 == (if op.cond_1 {
            0b00_0000_10u8
        } else {
            0u8
        }),
        op_byte(op) & 0b00_0000_01 == (if op.cond_carry {
            0b00_0000_01u8
        } else {
            0u8
        }),
{
    let s = src_bits(op.src);
    let d = dest_bits(op.dest);
    let o: u8 = if op.cond_1 {
        0b00_0000_10
    } else {
        0
    };
    let c: u8 = if op.cond_carry {
        0b00_0000_01
    } else {
        0
    };
    assert((s | d | o | c) & 0b11_0000_00 == s && (s | d | o | c) & 0b00_1111_00 == d && (s | d
        | o | c) & 0b00_0000_10 == o && (s | d | o | c) & 0b00_0000_01 == c) by (bit_vector)
        requires
            (s == 0x00 || s == 0x40 || s == 0x80 || s == 0xC0),
            (d == 0x00 || d == 0x04 || d == 0x08 || d == 0x0C || d == 0x10 || d == 0x14 || d
                == 0x18 || d == 0x1C || d == 0x20 || d == 0x24 || d == 0x28 || d == 0x2C || d
                == 0x30),
            (o == 2 || o == 0),
            (c == 1 || c == 0),
    ;
}

/// `wrap16` over a sum may wrap its first operand first.
proof fn lemma_wrap16_add(a: int, b: int)
    ensures
        wrap16(wrap16(a) as int + b) == wrap16(a + b),
{
    vstd::arithmetic::div_mod::lemma_fundamental_div_mod(a, 0x10000);
    vstd::arithmetic::div_mod::lemma_mod_multiples_vanish(a / 0x10000, a % 0x10000 + b, 0x10000);
}

/// Pass 1 never changes an entry that is already present.
proof fn lemma_pass1_preserves(
    stmts: Seq<(StmtView, int)>,
    i: int,
    acc: Map<Seq<u8>, u16>,
    pc: u16,
    key: Seq<u8>,
)
    requires
        pass1_from(stmts, i, acc, pc) is Ok,
        acc.contains_key(key),
    ensures
        pass1_from(stmts, i, acc, pc)->Ok_0.contains_key(key),
        pass1_from(stmts, i, acc, pc)->Ok_0[key] == acc[key],
    decreases stmts.len() - i,
{
    if 0 <= i < stmts.len() {
        match stmts[i].0 {
            StmtView::Label(name) => {
                lemma_pass1_preserves(stmts, i + 1, acc.insert(name, pc), pc, key);
            },
            StmtView::Operation(op) => {
                lemma_pass1_preserves(stmts, i + 1, acc, wrap16(pc + op_size(op.src)), key);
            },
        }
    }
}

/// Pass 1 from `i` maps the label declared at `j` to the running offset
/// plus the encoded size of the statements in between.
proof fn lemma_pass1_addr(
    stmts: Seq<(StmtView, int)>,
    i: int,
    acc: Map<Seq<u8>, u16>,
    pc: u16,
    j: int,
)
    requires
        0 <= i <= j < stmts.len(),
        pass1_from(stmts, i, acc, pc) is Ok,
        stmts[j].0 is Label,
    ensures
        pass1_from(stmts, i, acc, pc)->Ok_0.contains_key(stmts[j].0->Label_0),
        pass1_from(stmts, i, acc, pc)->Ok_0[stmts[j].0->Label_0] == wrap16(
            pc + encoded_size_range(stmts, i, j),
        ),
    decreases j - i,
{
    let name = stmts[j].0->Label_0;
    if i == j {
        lemma_pass1_preserves(stmts, i + 1, acc.insert(name, pc), pc, name);
    } else {
        match stmts[i].0 {
            StmtView::Label(other) => {
                lemma_pass1_addr(stmts, i + 1, acc.insert(other, pc), pc, j);
            },
            StmtView::Operation(op) => {
                lemma_pass1_addr(stmts, i + 1, acc, wrap16(pc + op_size(op.src)), j);
                lemma_wrap16_add(
                    pc + op_size(op.src),
                    encoded_size_range(stmts, i + 1, j),
                );
            },
        }
    }
}

/// Law: pass 1 maps each label to the byte offset at which pass 2 emits the
/// opcode of the operation that follows it — the encoded size of the
/// statements before the label, wrapped to 16 bits.  For a program within
/// 64 KiB the offset is the encoded size itself.
pub proof fn lemma_label_addresses(stmts: Seq<(StmtView, int)>, j: int)
    requires
        pass1(stmts) is Ok,
        0 <= j < stmts.len(),
        stmts[j].0 is Label,
    ensures
        pass1(stmts)->Ok_0.contains_key(stmts[j].0->Label_0),
        pass1(stmts)->Ok_0[stmts[j].0->Label_0] == wrap16(encoded_size_range(stmts, 0, j)),
        0 <= encoded_size_range(stmts, 0, j) < 0x10000 ==> pass1(stmts)->Ok_0[stmts[j].0->Label_0]
            == encoded_size_range(stmts, 0, j),
{
    lemma_pass1_addr(stmts, 0, Map::empty(), 0, j);
}

pub proof fn lemma_pass2_len(stmts: Seq<(StmtView, int)>, i: int, labels: Map<Seq<u8>, u16>)
    requires
        0 <= i,
        pass2_from(stmts, i, labels) is Ok,
    ensures
        pass2_from(stmts, i, labels)->Ok_0.len() == encoded_size_from(stmts, i),
    decreases stmts.len() - i,
{
    if i < stmts.len() {
        lemma_pass2_len(stmts, i + 1, labels);
    }
}

} // verus!
