//! Line parser for the symbolic assembly language.
//!
//! A line is either nothing (blank, whitespace-only, or a `//` / `%` comment),
//! a label declaration (`name:`), or an operation
//! (`source -> destination [: conditions]`).  Trailing text after a parsed
//! statement is accepted and ignored, which is what makes end-of-line
//! comments work.
//!
//! Parsing works over byte slices.  Every executable parser is specified
//! against a spec-level grammar function over `Seq<u8>` that returns the
//! parsed value together with the number of bytes consumed.

use vstd::prelude::*;

verus! {

use vstd::slice::{slice_subrange, slice_to_vec};

broadcast use vstd::seq_lib::lemma_seq_skip_of_skip;

/// A label name: a non-empty run of `[A-Za-z0-9_]` bytes.
pub type Label = Vec<u8>;

/// Where an operation pulls its byte from.
///
/// `Operand`, `LabelLo` and `LabelHi` encode identically (source tag `11`)
/// and require an immediate byte after the opcode; the label forms exist
/// only before assembly resolves them to address bytes.
#[derive(Debug, PartialEq, Clone)]
pub enum Source {
    Expansion,
    Accumulator,
    Memory,
    Operand(u8),
    LabelLo(Label),
    LabelHi(Label),
}

/// Where an operation pushes its byte to.
#[derive(Debug, PartialEq, Eq, Structural, Clone, Copy)]
pub enum Destination {
    Memory,
    MemAddressLo,
    MemAddressHi,
    Accumulator,
    AccumulatorPlus,
    AccumulatorNand,
    ProgramCounter,
    ProgramCounterLatch,
    Led,
    CarrySet,
    CarryReset,
    Serial,
    ExpansionSelect,
}

/// One machine operation: pull a byte from `src`, push it to `dest`,
/// gated by the two condition flags.
#[derive(Debug, PartialEq, Clone)]
pub struct Operation {
    pub src: Source,
    pub dest: Destination,
    pub cond_1: bool,
    pub cond_carry: bool,
}

/// What one source line contributes to the program.
#[derive(Debug, PartialEq, Clone)]
pub enum Statement {
    Label(Label),
    Operation(Operation),
}

/// Mathematical form of a `Source`: label names as byte sequences.
pub enum SrcView {
    Expansion,
    Accumulator,
    Memory,
    Operand(u8),
    LabelLo(Seq<u8>),
    LabelHi(Seq<u8>),
}

/// Mathematical form of an `Operation`.
pub struct OpView {
    pub src: SrcView,
    pub dest: Destination,
    pub cond_1: bool,
    pub cond_carry: bool,
}

/// Mathematical form of a `Statement`.
pub enum StmtView {
    Label(Seq<u8>),
    Operation(OpView),
}

impl View for Source {
    type V = SrcView;

    open spec fn view(&self) -> SrcView {
        match self {
            Source::Expansion => SrcView::Expansion,
            Source::Accumulator => SrcView::Accumulator,
            Source::Memory => SrcView::Memory,
            Source::Operand(b) => SrcView::Operand(*b),
            Source::LabelLo(name) => SrcView::LabelLo(name@),
            Source::LabelHi(name) => SrcView::LabelHi(name@),
        }
    }
}

impl View for Operation {
    type V = OpView;

    open spec fn view(&self) -> OpView {
        OpView { src: self.src@, dest: self.dest, cond_1: self.cond_1, cond_carry: self.cond_carry }
    }
}

impl View for Statement {
    type V = StmtView;

    open spec fn view(&self) -> StmtView {
        match self {
            Statement::Label(name) => StmtView::Label(name@),
            Statement::Operation(op) => StmtView::Operation(op@),
        }
    }
}

/// The line could not be read as a statement, a comment or blank space.
#[derive(Debug, PartialEq, Eq, Structural, Clone, Copy)]
pub struct ParseError;

// ---------------------------------------------------------------------------
// The grammar, as spec functions over byte sequences.
//
// Each returns the parsed value and the number of bytes consumed; `None`
// means the production does not match a prefix of the input.
// ---------------------------------------------------------------------------

/// Blank bytes: space and tab.
pub open spec fn is_space(b: u8) -> bool {
    b == 32 || b == 9
}

/// Bytes allowed in a label name: `[A-Za-z0-9_]`.
pub open spec fn is_name_byte(b: u8) -> bool {
    (48 <= b && b <= 57) || (65 <= b && b <= 90) || (97 <= b && b <= 122) || b == 95
}

/// Hexadecimal digit, either case.
pub open spec fn is_hex_byte(b: u8) -> bool {
    (48 <= b && b <= 57) || (65 <= b && b <= 70) || (97 <= b && b <= 102)
}

/// Numeric value of a hexadecimal digit.
pub open spec fn hex_value(b: u8) -> u8 {
    if 48 <= b && b <= 57 {
        (b - 48) as u8
    } else if 65 <= b && b <= 70 {
        (b - 55) as u8
    } else {
        (b - 87) as u8
    }
}

// The tokens of the grammar, as byte sequences.

/// `"EXP"`
pub open spec fn tok_exp() -> Seq<u8> {
    seq![69u8, 88, 80]
}

/// `"ACC"`
pub open spec fn tok_acc() -> Seq<u8> {
    seq![65u8, 67, 67]
}

/// `"RAM"`
pub open spec fn tok_ram() -> Seq<u8> {
    seq![82u8, 65, 77]
}

/// `"lo@"`
pub open spec fn tok_lo_at() -> Seq<u8> {
    seq![108u8, 111, 64]
}

/// `"hi@"`
pub open spec fn tok_hi_at() -> Seq<u8> {
    seq![104u8, 105, 64]
}

/// `"RAM.low"`
pub open spec fn tok_ram_low() -> Seq<u8> {
    seq![82u8, 65, 77, 46, 108, 111, 119]
}

/// `"RAM.high"`
pub open spec fn tok_ram_high() -> Seq<u8> {
    seq![82u8, 65, 77, 46, 104, 105, 103, 104]
}

/// `"ACC.plus"`
pub open spec fn tok_acc_plus() -> Seq<u8> {
    seq![65u8, 67, 67, 46, 112, 108, 117, 115]
}

/// `"ACC.nand"`
pub open spec fn tok_acc_nand() -> Seq<u8> {
    seq![65u8, 67, 67, 46, 110, 97, 110, 100]
}

/// `"PC.latch"`
pub open spec fn tok_pc_latch() -> Seq<u8> {
    seq![80u8, 67, 46, 108, 97, 116, 99, 104]
}

/// `"PC"`
pub open spec fn tok_pc() -> Seq<u8> {
    seq![80u8, 67]
}

/// `"LED"`
pub open spec fn tok_led() -> Seq<u8> {
    seq![76u8, 69, 68]
}

/// `"carry.set"`
pub open spec fn tok_carry_set() -> Seq<u8> {
    seq![99u8, 97, 114, 114, 121, 46, 115, 101, 116]
}

/// `"carry.reset"`
pub open spec fn tok_carry_reset() -> Seq<u8> {
    seq![99u8, 97, 114, 114, 121, 46, 114, 101, 115, 101, 116]
}

/// `"SER"`
pub open spec fn tok_ser() -> Seq<u8> {
    seq![83u8, 69, 82]
}

/// `"->"`
pub open spec fn tok_arrow() -> Seq<u8> {
    seq![45u8, 62]
}

/// `"|"`
pub open spec fn tok_bar() -> Seq<u8> {
    seq![124u8]
}

/// `":"`
pub open spec fn tok_colon() -> Seq<u8> {
    seq![58u8]
}

/// `"if_carry"`
pub open spec fn tok_if_carry() -> Seq<u8> {
    seq![105u8, 102, 95, 99, 97, 114, 114, 121]
}

/// `"if_1"`
pub open spec fn tok_if_1() -> Seq<u8> {
    seq![105u8, 102, 95, 49]
}

/// `"//"`
pub open spec fn tok_comment() -> Seq<u8> {
    seq![47u8, 47]
}

/// `"%"`
pub open spec fn tok_percent() -> Seq<u8> {
    seq![37u8]
}

/// Length of the longest prefix of `s` whose bytes all satisfy `pred`.
pub open spec fn run_len(s: Seq<u8>, pred: spec_fn(u8) -> bool) -> int
    decreases s.len(),
{
    if s.len() == 0 || !pred(s[0]) {
        0
    } else {
        1 + run_len(s.skip(1), pred)
    }
}

/// A run is never longer than the sequence it is a prefix of.
pub proof fn lemma_run_len_bounds(s: Seq<u8>, pred: spec_fn(u8) -> bool)
    ensures
        0 <= run_len(s, pred) <= s.len(),
    decreases s.len(),
{
    if s.len() > 0 && pred(s[0]) {
        lemma_run_len_bounds(s.skip(1), pred);
    }
}

/// `s` begins with the byte sequence `t`.
pub open spec fn has_tag(s: Seq<u8>, t: Seq<u8>) -> bool {
    s.len() >= t.len() && s.take(t.len() as int) == t
}

/// `name := [A-Za-z0-9_]+` — the longest such run, which must be non-empty.
pub open spec fn spec_parse_name(s: Seq<u8>) -> Option<(Seq<u8>, int)> {
    let n = run_len(s, |b: u8| is_name_byte(b));
    if n == 0 {
        None
    } else {
        Some((s.take(n), n))
    }
}

/// `hexbyte := two hex digits`, upper or lower case.
pub open spec fn spec_parse_hex(s: Seq<u8>) -> Option<(u8, int)> {
    if s.len() >= 2 && is_hex_byte(s[0]) && is_hex_byte(s[1]) {
        Some(((hex_value(s[0]) * 16 + hex_value(s[1])) as u8, 2))
    } else {
        None
    }
}

/// A single byte between single quotes: `'x'`.
pub open spec fn spec_parse_char(s: Seq<u8>) -> Option<(u8, int)> {
    if s.len() >= 3 && s[0] == 39 && s[2] == 39 {
        Some((s[1], 3))
    } else {
        None
    }
}

/// The source alternatives, tried in order.  A register token is tried
/// before the literal forms, so `ACC` is the accumulator while `AB` is the
/// hex literal `0xAB`.
pub open spec fn spec_parse_source(s: Seq<u8>) -> Option<(SrcView, int)> {
    if has_tag(s, tok_exp()) {
        Some((SrcView::Expansion, 3))
    } else if has_tag(s, tok_acc()) {
        Some((SrcView::Accumulator, 3))
    } else if has_tag(s, tok_ram()) {
        Some((SrcView::Memory, 3))
    } else if has_tag(s, tok_lo_at()) {
        match spec_parse_name(s.skip(3)) {
            Some((name, n)) => Some((SrcView::LabelLo(name), 3 + n)),
            None => None,
        }
    } else if has_tag(s, tok_hi_at()) {
        match spec_parse_name(s.skip(3)) {
            Some((name, n)) => Some((SrcView::LabelHi(name), 3 + n)),
            None => None,
        }
    } else {
        match spec_parse_char(s) {
            Some((b, n)) => Some((SrcView::Operand(b), n)),
            None => match spec_parse_hex(s) {
                Some((b, n)) => Some((SrcView::Operand(b), n)),
                None => None,
            },
        }
    }
}

/// The destination alternatives, tried in order; a longer token is tried
/// before any token that is its prefix (`RAM.low` before `RAM`).
pub open spec fn spec_parse_destination(s: Seq<u8>) -> Option<(Destination, int)> {
    if has_tag(s, tok_ram_low()) {
        Some((Destination::MemAddressLo, 7))
    } else if has_tag(s, tok_ram_high()) {
        Some((Destination::MemAddressHi, 8))
    } else if has_tag(s, tok_ram()) {
        Some((Destination::Memory, 3))
    } else if has_tag(s, tok_acc_plus()) {
        Some((Destination::AccumulatorPlus, 8))
    } else if has_tag(s, tok_acc_nand()) {
        Some((Destination::AccumulatorNand, 8))
    } else if has_tag(s, tok_acc()) {
        Some((Destination::Accumulator, 3))
    } else if has_tag(s, tok_pc_latch()) {
        Some((Destination::ProgramCounterLatch, 8))
    } else if has_tag(s, tok_pc()) {
        Some((Destination::ProgramCounter, 2))
    } else if has_tag(s, tok_led()) {
        Some((Destination::Led, 3))
    } else if has_tag(s, tok_carry_set()) {
        Some((Destination::CarrySet, 9))
    } else if has_tag(s, tok_carry_reset()) {
        Some((Destination::CarryReset, 11))
    } else if has_tag(s, tok_ser()) {
        Some((Destination::Serial, 3))
    } else {
        None
    }
}

/// A separator `sep` padded by at least one blank byte on each side;
/// returns the total width consumed.
pub open spec fn spec_parse_padded(s: Seq<u8>, sep: Seq<u8>) -> Option<int> {
    let w1 = run_len(s, |b: u8| is_space(b));
    if w1 >= 1 && has_tag(s.skip(w1), sep) {
        let w2 = run_len(s.skip(w1 + sep.len()), |b: u8| is_space(b));
        if w2 >= 1 {
            Some(w1 + sep.len() + w2)
        } else {
            None
        }
    } else {
        None
    }
}

/// The condition alternatives after the colon: a disjunctive pair in either
/// order, or a single flag.
pub open spec fn spec_parse_conditions(s: Seq<u8>) -> Option<((bool, bool), int)> {
    let if_carry = tok_if_carry();
    let if_one = tok_if_1();
    if has_tag(s, if_carry) {
        match spec_parse_padded(s.skip(8), tok_bar()) {
            Some(k) => if has_tag(s.skip(8 + k), if_one) {
                Some(((true, true), 8 + k + 4))
            } else {
                Some(((false, true), 8))
            },
            None => Some(((false, true), 8)),
        }
    } else if has_tag(s, if_one) {
        match spec_parse_padded(s.skip(4), tok_bar()) {
            Some(k) => if has_tag(s.skip(4 + k), if_carry) {
                Some(((true, true), 4 + k + 8))
            } else {
                Some(((true, false), 4))
            },
            None => Some(((true, false), 4)),
        }
    } else {
        None
    }
}

/// The optional condition suffix of an operation.  When the colon or the
/// conditions after it do not match, nothing is consumed and both flags are
/// clear; the unread text is trailing comment material.
pub open spec fn spec_parse_cond_suffix(s: Seq<u8>) -> ((bool, bool), int) {
    match spec_parse_padded(s, tok_colon()) {
        Some(k) => match spec_parse_conditions(s.skip(k)) {
            Some((c, n)) => (c, k + n),
            None => ((false, false), 0),
        },
        None => ((false, false), 0),
    }
}

/// `operation := source WS "->" WS destination [ WS ":" WS conditions ]`.
pub open spec fn spec_parse_operation(s: Seq<u8>) -> Option<(OpView, int)> {
    match spec_parse_source(s) {
        None => None,
        Some((src, i)) => match spec_parse_padded(s.skip(i), tok_arrow()) {
            None => None,
            Some(j) => match spec_parse_destination(s.skip(i + j)) {
                None => None,
                Some((dest, k)) => {
                    let (c, m) = spec_parse_cond_suffix(s.skip(i + j + k));
                    Some((OpView { src, dest, cond_1: c.0, cond_carry: c.1 }, i + j + k + m))
                },
            },
        },
    }
}

/// `label := name ":"`.
pub open spec fn spec_parse_label(s: Seq<u8>) -> Option<(Seq<u8>, int)> {
    match spec_parse_name(s) {
        Some((name, n)) => if n < s.len() && s[n] == 58 {
            Some((name, n + 1))
        } else {
            None
        },
        None => None,
    }
}

/// `statement := operation | label`.
pub open spec fn spec_parse_statement(s: Seq<u8>) -> Option<(StmtView, int)> {
    match spec_parse_operation(s) {
        Some((op, n)) => Some((StmtView::Operation(op), n)),
        None => match spec_parse_label(s) {
            Some((name, n)) => Some((StmtView::Label(name), n)),
            None => None,
        },
    }
}

/// A whole line: a statement, a `//` or `%` comment, or only blank bytes.
/// The inner `Option` is `None` for lines that contribute no statement.
pub open spec fn spec_parse_line(s: Seq<u8>) -> Option<(Option<StmtView>, int)> {
    match spec_parse_statement(s) {
        Some((st, n)) => Some((Some(st), n)),
        None => if has_tag(s, tok_comment()) {
            Some((None, 2))
        } else if has_tag(s, tok_percent()) {
            Some((None, 1))
        } else if run_len(s, |b: u8| is_space(b)) == s.len() {
            Some((None, s.len() as int))
        } else {
            None
        },
    }
}


// ---------------------------------------------------------------------------
// Executable parsers.
//
// Each states in its contract exactly what the spec grammar yields on its
// input; the bytes consumed are pinned down as the difference between the
// input length and the remainder length.
// ---------------------------------------------------------------------------

/// Scanning a prefix of bytes satisfying `pred`, and stopping at the first
/// byte that does not, finds exactly `run_len`.
pub proof fn lemma_run_len_scan(s: Seq<u8>, pred: spec_fn(u8) -> bool, i: int)
    requires
        0 <= i <= s.len(),
        forall|j: int| 0 <= j < i ==> pred(s[j]),
        i == s.len() || !pred(s[i]),
    ensures
        run_len(s, pred) == i,
    decreases i,
{
    if i > 0 {
        assert(pred(s[0]));
        assert forall|j: int| 0 <= j < i - 1 implies pred(s.skip(1)[j]) by {
            assert(s.skip(1)[j] == s[j + 1]);
        }
        if i < s.len() {
            assert(s.skip(1)[i - 1] == s[i]);
        }
        lemma_run_len_scan(s.skip(1), pred, i - 1);
    }
}

/// Whether `s` begins with the bytes of `t`.
fn match_tag(s: &[u8], t: &[u8]) -> (r: bool)
    ensures
        r == has_tag(s@, t@),
{
    if s.len() < t.len() {
        return false;
    }
    let mut i: usize = 0;
    while i < t.len()
        invariant
            0 <= i <= t@.len(),
            s@.len() >= t@.len(),
            forall|j: int| 0 <= j < i ==> s@[j] == t@[j],
        decreases t@.len() - i,
    {
        if s[i] != t[i] {
            proof {
                assert(s@.take(t@.len() as int)[i as int] != t@[i as int]);
            }
            return false;
        }
        i += 1;
    }
    proof {
        assert(s@.take(t@.len() as int) =~= t@);
    }
    true
}

/// The view of an optional statement.
pub open spec fn opt_stmt_view(o: Option<Statement>) -> Option<StmtView> {
    match o {
        Some(st) => Some(st@),
        None => None,
    }
}

/// Length of the leading run of blank bytes.
fn space_run(s: &[u8]) -> (n: usize)
    ensures
        n == run_len(s@, |b: u8| is_space(b)),
        n <= s@.len(),
{
    let mut i: usize = 0;
    while i < s.len() && (s[i] == 32 || s[i] == 9)
        invariant
            0 <= i <= s@.len(),
            forall|j: int| 0 <= j < i ==> is_space(s@[j]),
        decreases s@.len() - i,
    {
        i += 1;
    }
    proof {
        lemma_run_len_scan(s@, |b: u8| is_space(b), i as int);
    }
    i
}

/// Numeric value of a hexadecimal digit byte, or `None` if it is not one.
fn hex_digit(b: u8) -> (r: Option<u8>)
    ensures
        match r {
            Some(v) => is_hex_byte(b) && v == hex_value(b) && v <= 15,
            None => !is_hex_byte(b),
        },
{
    if 48 <= b && b <= 57 {
        Some(b - 48)
    } else if 65 <= b && b <= 70 {
        Some(b - 55)
    } else if 97 <= b && b <= 102 {
        Some(b - 87)
    } else {
        None
    }
}

/// `hexbyte := two hex digits`; returns the remaining input and the value.
pub fn parse_hex<'a>(s: &'a [u8]) -> (r: Result<(&'a [u8], u8), ParseError>)
    ensures
        match r {
            Ok((rest, v)) => rest@.len() + 2 == s@.len() && spec_parse_hex(s@) == Some((v, 2int))
                && rest@ == s@.skip(2),
            Err(_) => spec_parse_hex(s@) is None,
        },
{
    if s.len() < 2 {
        return Err(ParseError);
    }
    let h0 = match hex_digit(s[0]) {
        Some(v) => v,
        None => return Err(ParseError),
    };
    let h1 = match hex_digit(s[1]) {
        Some(v) => v,
        None => return Err(ParseError),
    };
    Ok((slice_subrange(s, 2, s.len()), h0 * 16 + h1))
}

/// `name := [A-Za-z0-9_]+`; returns the remaining input and the name bytes.
pub fn parse_name<'a>(s: &'a [u8]) -> (r: Result<(&'a [u8], &'a [u8]), ParseError>)
    ensures
        match r {
            Ok((rest, name)) => name@.len() >= 1 && name@.len() + rest@.len() == s@.len()
                && spec_parse_name(s@) == Some((name@, name@.len() as int))
                && rest@ == s@.skip(name@.len() as int),
            Err(_) => spec_parse_name(s@) is None,
        },
{
    let mut i: usize = 0;
    while i < s.len() && (48 <= s[i] && s[i] <= 57 || 65 <= s[i] && s[i] <= 90 || 97 <= s[i] && s[i]
        <= 122 || s[i] == 95)
        invariant
            0 <= i <= s@.len(),
            forall|j: int| 0 <= j < i ==> is_name_byte(s@[j]),
        decreases s@.len() - i,
    {
        i += 1;
    }
    proof {
        lemma_run_len_scan(s@, |b: u8| is_name_byte(b), i as int);
    }
    if i == 0 {
        Err(ParseError)
    } else {
        Ok((slice_subrange(s, i, s.len()), slice_subrange(s, 0, i)))
    }
}

/// `'x'`: a single byte between single quotes.
pub fn parse_char<'a>(s: &'a [u8]) -> (r: Result<(&'a [u8], u8), ParseError>)
    ensures
        match r {
            Ok((rest, v)) => rest@.len() + 3 == s@.len() && spec_parse_char(s@) == Some((v, 3int))
                && rest@ == s@.skip(3),
            Err(_) => spec_parse_char(s@) is None,
        },
{
    if s.len() >= 3 && s[0] == 39 && s[2] == 39 {
        Ok((slice_subrange(s, 3, s.len()), s[1]))
    } else {
        Err(ParseError)
    }
}

/// The source of an operation.
pub fn parse_source<'a>(s: &'a [u8]) -> (r: Result<(&'a [u8], Source), ParseError>)
    ensures
        match r {
            Ok((rest, v)) => rest@.len() <= s@.len() && spec_parse_source(s@) == Some(
                (v@, s@.len() - rest@.len()),
            ) && rest@ == s@.skip(s@.len() - rest@.len()),
            Err(_) => spec_parse_source(s@) is None,
        },
{
    let t_exp = [69u8, 88, 80];
    let t_acc = [65u8, 67, 67];
    let t_ram = [82u8, 65, 77];
    let t_lo = [108u8, 111, 64];
    let t_hi = [104u8, 105, 64];
    proof {
        assert(t_exp@ =~= tok_exp());
        assert(t_acc@ =~= tok_acc());
        assert(t_ram@ =~= tok_ram());
        assert(t_lo@ =~= tok_lo_at());
        assert(t_hi@ =~= tok_hi_at());
    }
    if match_tag(s, t_exp.as_slice()) {
        Ok((slice_subrange(s, 3, s.len()), Source::Expansion))
    } else if match_tag(s, t_acc.as_slice()) {
        Ok((slice_subrange(s, 3, s.len()), Source::Accumulator))
    } else if match_tag(s, t_ram.as_slice()) {
        Ok((slice_subrange(s, 3, s.len()), Source::Memory))
    } else if match_tag(s, t_lo.as_slice()) {
        let tail = slice_subrange(s, 3, s.len());
        match parse_name(tail) {
            Ok((rest, name)) => {
                proof {
                    assert(rest@ =~= s@.skip(3 + name@.len() as int));
                }
                Ok((rest, Source::LabelLo(slice_to_vec(name))))
            },
            Err(_) => Err(ParseError),
        }
    } else if match_tag(s, t_hi.as_slice()) {
        let tail = slice_subrange(s, 3, s.len());
        match parse_name(tail) {
            Ok((rest, name)) => {
                proof {
                    assert(rest@ =~= s@.skip(3 + name@.len() as int));
                }
                Ok((rest, Source::LabelHi(slice_to_vec(name))))
            },
            Err(_) => Err(ParseError),
        }
    } else {
        match parse_char(s) {
            Ok((rest, b)) => Ok((rest, Source::Operand(b))),
            Err(_) => match parse_hex(s) {
                Ok((rest, b)) => Ok((rest, Source::Operand(b))),
                Err(_) => Err(ParseError),
            },
        }
    }
}

/// The destination of an operation.
pub fn parse_destination<'a>(s: &'a [u8]) -> (r: Result<(&'a [u8], Destination), ParseError>)
    ensures
        match r {
            Ok((rest, v)) => rest@.len() <= s@.len() && spec_parse_destination(s@) == Some(
                (v, s@.len() - rest@.len()),
            ) && rest@ == s@.skip(s@.len() - rest@.len()),
            Err(_) => spec_parse_destination(s@) is None,
        },
{
    let t_ram_low = [82u8, 65, 77, 46, 108, 111, 119];
    let t_ram_high = [82u8, 65, 77, 46, 104, 105, 103, 104];
    let t_ram = [82u8, 65, 77];
    let t_acc_plus = [65u8, 67, 67, 46, 112, 108, 117, 115];
    let t_acc_nand = [65u8, 67, 67, 46, 110, 97, 110, 100];
    let t_acc = [65u8, 67, 67];
    let t_pc_latch = [80u8, 67, 46, 108, 97, 116, 99, 104];
    let t_pc = [80u8, 67];
    let t_led = [76u8, 69, 68];
    let t_carry_set = [99u8, 97, 114, 114, 121, 46, 115, 101, 116];
    let t_carry_reset = [99u8, 97, 114, 114, 121, 46, 114, 101, 115, 101, 116];
    let t_ser = [83u8, 69, 82];
    proof {
        assert(t_ram_low@ =~= tok_ram_low());
        assert(t_ram_high@ =~= tok_ram_high());
        assert(t_ram@ =~= tok_ram());
        assert(t_acc_plus@ =~= tok_acc_plus());
        assert(t_acc_nand@ =~= tok_acc_nand());
        assert(t_acc@ =~= tok_acc());
        assert(t_pc_latch@ =~= tok_pc_latch());
        assert(t_pc@ =~= tok_pc());
        assert(t_led@ =~= tok_led());
        assert(t_carry_set@ =~= tok_carry_set());
        assert(t_carry_reset@ =~= tok_carry_reset());
        assert(t_ser@ =~= tok_ser());
    }
    if match_tag(s, t_ram_low.as_slice()) {
        Ok((slice_subrange(s, 7, s.len()), Destination::MemAddressLo))
    } else if match_tag(s, t_ram_high.as_slice()) {
        Ok((slice_subrange(s, 8, s.len()), Destination::MemAddressHi))
    } else if match_tag(s, t_ram.as_slice()) {
        Ok((slice_subrange(s, 3, s.len()), Destination::Memory))
    } else if match_tag(s, t_acc_plus.as_slice()) {
        Ok((slice_subrange(s, 8, s.len()), Destination::AccumulatorPlus))
    } else if match_tag(s, t_acc_nand.as_slice()) {
        Ok((slice_subrange(s, 8, s.len()), Destination::AccumulatorNand))
    } else if match_tag(s, t_acc.as_slice()) {
        Ok((slice_subrange(s, 3, s.len()), Destination::Accumulator))
    } else if match_tag(s, t_pc_latch.as_slice()) {
        Ok((slice_subrange(s, 8, s.len()), Destination::ProgramCounterLatch))
    } else if match_tag(s, t_pc.as_slice()) {
        Ok((slice_subrange(s, 2, s.len()), Destination::ProgramCounter))
    } else if match_tag(s, t_led.as_slice()) {
        Ok((slice_subrange(s, 3, s.len()), Destination::Led))
    } else if match_tag(s, t_carry_set.as_slice()) {
        Ok((slice_subrange(s, 9, s.len()), Destination::CarrySet))
    } else if match_tag(s, t_carry_reset.as_slice()) {
        Ok((slice_subrange(s, 11, s.len()), Destination::CarryReset))
    } else if match_tag(s, t_ser.as_slice()) {
        Ok((slice_subrange(s, 3, s.len()), Destination::Serial))
    } else {
        Err(ParseError)
    }
}

/// A separator padded by at least one blank byte on each side.
fn parse_padded<'a>(s: &'a [u8], sep: &[u8]) -> (r: Result<&'a [u8], ParseError>)
    ensures
        match r {
            Ok(rest) => rest@.len() <= s@.len() && spec_parse_padded(s@, sep@) == Some(
                s@.len() - rest@.len(),
            ) && rest@ == s@.skip(s@.len() - rest@.len()),
            Err(_) => spec_parse_padded(s@, sep@) is None,
        },
{
    let w1 = space_run(s);
    if w1 == 0 {
        return Err(ParseError);
    }
    let after1 = slice_subrange(s, w1, s.len());
    if !match_tag(after1, sep) {
        return Err(ParseError);
    }
    let after_sep = slice_subrange(after1, sep.len(), after1.len());
    proof {
        assert(after_sep@ =~= s@.skip(w1 + sep@.len()));
    }
    let w2 = space_run(after_sep);
    if w2 == 0 {
        return Err(ParseError);
    }
    let rest = slice_subrange(after_sep, w2, after_sep.len());
    proof {
        assert(rest@ =~= s@.skip(w1 + sep@.len() + w2));
    }
    Ok(rest)
}

/// The condition alternatives after the colon.
fn parse_conditions<'a>(s: &'a [u8]) -> (r: Result<(bool, bool, &'a [u8]), ParseError>)
    ensures
        match r {
            Ok((c1, cc, rest)) => rest@.len() <= s@.len() && spec_parse_conditions(s@) == Some(
                ((c1, cc), s@.len() - rest@.len()),
            ) && rest@ == s@.skip(s@.len() - rest@.len()),
            Err(_) => spec_parse_conditions(s@) is None,
        },
{
    let t_carry = [105u8, 102, 95, 99, 97, 114, 114, 121];
    let t_one = [105u8, 102, 95, 49];
    let t_bar = [124u8];
    proof {
        assert(t_carry@ =~= tok_if_carry());
        assert(t_one@ =~= tok_if_1());
        assert(t_bar@ =~= tok_bar());
    }
    if match_tag(s, t_carry.as_slice()) {
        let rest8 = slice_subrange(s, 8, s.len());
        match parse_padded(rest8, t_bar.as_slice()) {
            Ok(rest_b) => {
                proof {
                    let k = rest8@.len() - rest_b@.len();
                    assert(rest_b@ =~= s@.skip(8 + k));
                }
                if match_tag(rest_b, t_one.as_slice()) {
                    let rest = slice_subrange(rest_b, 4, rest_b.len());
                    proof {
                        let k = rest8@.len() - rest_b@.len();
                        assert(rest@ =~= s@.skip(8 + k + 4));
                    }
                    Ok((true, true, rest))
                } else {
                    Ok((false, true, rest8))
                }
            },
            Err(_) => Ok((false, true, rest8)),
        }
    } else if match_tag(s, t_one.as_slice()) {
        let rest4 = slice_subrange(s, 4, s.len());
        match parse_padded(rest4, t_bar.as_slice()) {
            Ok(rest_b) => {
                proof {
                    let k = rest4@.len() - rest_b@.len();
                    assert(rest_b@ =~= s@.skip(4 + k));
                }
                if match_tag(rest_b, t_carry.as_slice()) {
                    let rest = slice_subrange(rest_b, 8, rest_b.len());
                    proof {
                        let k = rest4@.len() - rest_b@.len();
                        assert(rest@ =~= s@.skip(4 + k + 8));
                    }
                    Ok((true, true, rest))
                } else {
                    Ok((true, false, rest4))
                }
            },
            Err(_) => Ok((true, false, rest4)),
        }
    } else {
        Err(ParseError)
    }
}

/// The optional condition suffix; consumes nothing when it does not match.
fn parse_cond_suffix<'a>(s: &'a [u8]) -> (r: (bool, bool, &'a [u8]))
    ensures
        r.2@.len() <= s@.len(),
        spec_parse_cond_suffix(s@) == ((r.0, r.1), s@.len() - r.2@.len()),
        r.2@ == s@.skip(s@.len() - r.2@.len()),
{
    let t_colon = [58u8];
    proof {
        assert(t_colon@ =~= tok_colon());
        assert(s@.skip(0) =~= s@);
    }
    match parse_padded(s, t_colon.as_slice()) {
        Err(_) => (false, false, s),
        Ok(rest) => match parse_conditions(rest) {
            Err(_) => (false, false, s),
            Ok((c1, cc, rest2)) => {
                proof {
                    let k = s@.len() - rest@.len();
                    let n = rest@.len() - rest2@.len();
                    assert(rest2@ =~= s@.skip(k + n));
                }
                (c1, cc, rest2)
            },
        },
    }
}

/// `operation := source WS "->" WS destination [ WS ":" WS conditions ]`.
#[verifier::rlimit(60)]
pub fn parse_operation<'a>(s: &'a [u8]) -> (r: Result<(&'a [u8], Operation), ParseError>)
    ensures
        match r {
            Ok((rest, op)) => rest@.len() <= s@.len() && spec_parse_operation(s@) == Some(
                (op@, s@.len() - rest@.len()),
            ) && rest@ == s@.skip(s@.len() - rest@.len()),
            Err(_) => spec_parse_operation(s@) is None,
        },
{
    let (rest1, src) = match parse_source(s) {
        Ok(x) => x,
        Err(_) => return Err(ParseError),
    };
    let t_arrow = [45u8, 62];
    proof {
        assert(t_arrow@ =~= tok_arrow());
    }
    let rest2 = match parse_padded(rest1, t_arrow.as_slice()) {
        Ok(x) => x,
        Err(_) => return Err(ParseError),
    };
    proof {
        let i = s@.len() - rest1@.len();
        let j = rest1@.len() - rest2@.len();
        assert(rest2@ =~= s@.skip(i + j));
    }
    let (rest3, dest) = match parse_destination(rest2) {
        Ok(x) => x,
        Err(_) => return Err(ParseError),
    };
    proof {
        let ij = s@.len() - rest2@.len();
        let k = rest2@.len() - rest3@.len();
        assert(rest3@ =~= s@.skip(ij + k));
    }
    let (c1, cc, rest4) = parse_cond_suffix(rest3);
    proof {
        let ijk = s@.len() - rest3@.len();
        let m = rest3@.len() - rest4@.len();
        assert(rest4@ =~= s@.skip(ijk + m));
    }
    Ok((rest4, Operation { src, dest, cond_1: c1, cond_carry: cc }))
}

/// `label := name ":"`.
pub fn parse_label<'a>(s: &'a [u8]) -> (r: Result<(&'a [u8], Label), ParseError>)
    ensures
        match r {
            Ok((rest, name)) => rest@.len() <= s@.len() && spec_parse_label(s@) == Some(
                (name@, s@.len() - rest@.len()),
            ) && rest@ == s@.skip(s@.len() - rest@.len()),
            Err(_) => spec_parse_label(s@) is None,
        },
{
    match parse_name(s) {
        Err(_) => Err(ParseError),
        Ok((rest, nm)) => {
            if rest.len() >= 1 && rest[0] == 58 {
                let rest2 = slice_subrange(rest, 1, rest.len());
                proof {
                    assert(rest2@ =~= s@.skip(nm@.len() as int + 1));
                }
                Ok((rest2, slice_to_vec(nm)))
            } else {
                Err(ParseError)
            }
        },
    }
}

/// `statement := operation | label`.
pub fn parse_statement<'a>(s: &'a [u8]) -> (r: Result<(&'a [u8], Statement), ParseError>)
    ensures
        match r {
            Ok((rest, st)) => rest@.len() <= s@.len() && spec_parse_statement(s@) == Some(
                (st@, s@.len() - rest@.len()),
            ) && rest@ == s@.skip(s@.len() - rest@.len()),
            Err(_) => spec_parse_statement(s@) is None,
        },
{
    match parse_operation(s) {
        Ok((rest, op)) => Ok((rest, Statement::Operation(op))),
        Err(_) => match parse_label(s) {
            Ok((rest, name)) => Ok((rest, Statement::Label(name))),
            Err(_) => Err(ParseError),
        },
    }
}

/// A whole line: a statement, a comment, or blank space.  `Ok` with `None`
/// means the line contributes no statement.
pub fn parse_line<'a>(s: &'a [u8]) -> (r: Result<(&'a [u8], Option<Statement>), ParseError>)
    ensures
        match r {
            Ok((rest, st)) => rest@.len() <= s@.len() && spec_parse_line(s@) == Some(
                (opt_stmt_view(st), s@.len() - rest@.len()),
            ) && rest@ == s@.skip(s@.len() - rest@.len()),
            Err(_) => spec_parse_line(s@) is None,
        },
{
    match parse_statement(s) {
        Ok((rest, st)) => Ok((rest, Some(st))),
        Err(_) => {
            let t_comment = [47u8, 47];
            proof {
                assert(t_comment@ =~= tok_comment());
            }
            if match_tag(s, t_comment.as_slice()) {
                Ok((slice_subrange(s, 2, s.len()), None))
            } else if s.len() >= 1 && s[0] == 37 {
                proof {
                    assert(s@.take(1) =~= tok_percent());
                }
                Ok((slice_subrange(s, 1, s.len()), None))
            } else {
                proof {
                    if has_tag(s@, tok_percent()) {
                        assert(s@.take(1)[0] == s@[0]);
                    }
                }
                let w = space_run(s);
                if w == s.len() {
                    Ok((slice_subrange(s, w, s.len()), None))
                } else {
                    Err(ParseError)
                }
            }
        },
    }
}

} // verus!
