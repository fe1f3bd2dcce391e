//! The machine and its execution.
//!
//! State: an 8-bit accumulator, a 16-bit program counter with an 8-bit
//! latch, a byte-addressable RAM that grows on touch (an unwritten cell
//! reads as 0) with two address latches, a carry flag, a "one" flag, an LED
//! port, and a serial port modelled as two byte queues — the physical
//! transport behind them belongs to the caller.
//!
//! One `step` decodes the operation at the program counter, advances the
//! counter by the bytes consumed (wrapping at 16 bits), evaluates the
//! condition field — both flags named means *either* suffices — and, if the
//! operation executes, pulls a byte from its source and pushes it to its
//! destination.  The whole transition is the spec function `spec_step`.

use vstd::prelude::*;

use crate::assembler::wrap16;
use crate::decoder::{self, DecoderError};
use crate::parser::{Destination, Operation, OpView, Source, SrcView};

verus! {

/// The machine's word: one byte.
pub type Word = u8;

/// A failure of loading or of one step.
#[derive(Debug, Clone, PartialEq)]
pub enum EmulatorError {
    /// The operation at the program counter cannot be decoded.
    Decoder(DecoderError),
    /// An immediate source aimed at memory: the same rule the assembler
    /// enforces, checked again because arbitrary bytes may be loaded.
    Illegal(Operation),
    /// The image does not begin with the `0x4C` prologue byte.
    MissingNop,
}

/// Mathematical form of an `EmulatorError`.
pub enum EmuErrView {
    Decoder(DecoderError),
    Illegal(OpView),
    MissingNop,
}

impl View for EmulatorError {
    type V = EmuErrView;

    open spec fn view(&self) -> EmuErrView {
        match self {
            EmulatorError::Decoder(e) => EmuErrView::Decoder(*e),
            EmulatorError::Illegal(op) => EmuErrView::Illegal(op@),
            EmulatorError::MissingNop => EmuErrView::MissingNop,
        }
    }
}

/// The sole arithmetic register.
#[derive(Debug)]
pub struct Accumulator {
    pub value: Word,
}

impl Accumulator {
    /// Replaces the value with NAND of it and `value`; no flag changes.
    pub fn nand(&mut self, value: Word)
        ensures
            final(self).value == !(old(self).value & value),
    {
        self.value = !(self.value & value);
    }

    /// Adds `value`, wrapping at 8 bits.  Returns true exactly when the
    /// unsigned addition overflowed: the new carry flag.
    pub fn add(&mut self, value: Word) -> (carry: bool)
        ensures
            final(self).value == ((old(self).value + value) % 256) as u8,
            carry == (old(self).value + value >= 256),
    {
        let total: u16 = self.value as u16 + value as u16;
        self.value = (total % 256) as u8;
        total >= 256
    }

    /// Replaces the value.  Returns true exactly when the byte written is
    /// `0xFF`: the new one flag.
    pub fn set(&mut self, value: Word) -> (one: bool)
        ensures
            final(self).value == value,
            one == (value == 0xFF),
    {
        self.value = value;
        value == 0b1111_1111
    }

    /// The current value.
    pub fn get(&self) -> (r: Word)
        ensures
            r == self.value,
    {
        self.value
    }
}

impl Default for Accumulator {
    /// An accumulator holding zero.
    fn default() -> (r: Accumulator)
        ensures
            r.value == 0,
    {
        Accumulator { value: 0 }
    }
}

/// The 16-bit program counter and the latch that buffers the high byte of a
/// jump target.
#[derive(Debug)]
pub struct ProgramCounter {
    pub value: u16,
    pub latch: Word,
}

impl ProgramCounter {
    /// Stores the high byte of a coming jump.
    pub fn latch(&mut self, value: Word)
        ensures
            final(self).latch == value,
            final(self).value == old(self).value,
    {
        self.latch = value;
    }

    /// Jumps: the latched byte is the high half of the new counter, `value`
    /// the low half.
    pub fn jump(&mut self, value: Word)
        ensures
            final(self).value == old(self).latch * 256 + value,
            final(self).latch == old(self).latch,
    {
        self.value = (self.latch as u16) * 256 + (value as u16);
    }

    /// Sets the counter outright.
    pub fn set(&mut self, value: u16)
        ensures
            final(self).value == value,
            final(self).latch == old(self).latch,
    {
        self.value = value;
    }

    /// Advances the counter, wrapping at 16 bits.
    pub fn advance(&mut self, advance: u16)
        ensures
            final(self).value == wrap16(old(self).value + advance),
            final(self).latch == old(self).latch,
    {
        self.value = self.value.wrapping_add(advance);
    }

    /// The current counter.
    pub fn get(&self) -> (r: u16)
        ensures
            r == self.value,
    {
        self.value
    }
}

impl Default for ProgramCounter {
    /// A counter at zero with an empty latch.
    fn default() -> (r: ProgramCounter)
        ensures
            r.value == 0,
            r.latch == 0,
    {
        ProgramCounter { value: 0, latch: 0 }
    }
}

/// The LED port: holds the last byte written to it.
#[derive(Debug)]
pub struct Led {
    pub value: Word,
}

impl Led {
    /// Lights the LEDs.
    pub fn set(&mut self, value: Word)
        ensures
            final(self).value == value,
    {
        self.value = value;
    }

    /// The byte on the LEDs.
    pub fn get(&self) -> (r: Word)
        ensures
            r == self.value,
    {
        self.value
    }
}

impl Default for Led {
    /// Dark LEDs.
    fn default() -> (r: Led)
        ensures
            r.value == 0,
    {
        Led { value: 0 }
    }
}

/// What a RAM cell reads as: its value if the cell has been touched, 0
/// otherwise.
pub open spec fn spec_mem_byte(vals: Seq<u8>, addr: int) -> u8 {
    if 0 <= addr < vals.len() {
        vals[addr]
    } else {
        0u8
    }
}

/// The RAM grown to reach `addr`: untouched cells are zero.
pub open spec fn spec_grow(vals: Seq<u8>, addr: int) -> Seq<u8> {
    if addr < vals.len() {
        vals
    } else {
        vals + Seq::new((addr + 1 - vals.len()) as nat, |i: int| 0u8)
    }
}

/// Byte-addressable RAM, grown on touch, addressed through two latches.
#[derive(Debug)]
pub struct Memory {
    pub values: Vec<Word>,
    pub low_latch: Word,
    pub hi_latch: Word,
}

impl Memory {
    /// The address the two latches select.
    pub open spec fn spec_address(&self) -> int {
        self.low_latch + self.hi_latch * 256
    }

    /// Stores the low address byte.
    pub fn latch_low(&mut self, value: Word)
        ensures
            final(self).low_latch == value,
            final(self).hi_latch == old(self).hi_latch,
            final(self).values == old(self).values,
    {
        self.low_latch = value;
    }

    /// Stores the high address byte.
    pub fn latch_high(&mut self, value: Word)
        ensures
            final(self).hi_latch == value,
            final(self).low_latch == old(self).low_latch,
            final(self).values == old(self).values,
    {
        self.hi_latch = value;
    }

    /// The address the two latches select.
    pub fn address(&self) -> (r: u16)
        ensures
            r == self.spec_address(),
    {
        (self.low_latch as u16) + (self.hi_latch as u16) * 256
    }

    /// Grows the RAM so that the selected address exists.
    fn expand(&mut self)
        ensures
            final(self).values@ == spec_grow(old(self).values@, old(self).spec_address()),
            final(self).low_latch == old(self).low_latch,
            final(self).hi_latch == old(self).hi_latch,
    {
        let address = self.address() as usize;
        proof {
            assert(self.values@ =~= old(self).values@ + Seq::new(0nat, |i: int| 0u8));
        }
        while self.values.len() < address + 1
            invariant
                address == self.spec_address(),
                self.values@.len() == old(self).values@.len() || self.values@.len() <= address
                    + 1,
                self.low_latch == old(self).low_latch,
                self.hi_latch == old(self).hi_latch,
                old(self).values@.len() <= self.values@.len(),
                self.values@ == old(self).values@ + Seq::new(
                    (self.values@.len() - old(self).values@.len()) as nat,
                    |i: int| 0u8,
                ),
            decreases address + 1 - self.values@.len(),
        {
            let ghost before = self.values@;
            self.values.push(0);
            proof {
                assert(self.values@ =~= old(self).values@ + Seq::new(
                    (self.values@.len() - old(self).values@.len()) as nat,
                    |i: int| 0u8,
                ));
            }
        }
        proof {
            if old(self).spec_address() < old(self).values@.len() {
                assert(self.values@ =~= old(self).values@);
            } else {
                assert(self.values@ =~= spec_grow(old(self).values@, old(self).spec_address()));
            }
        }
    }

    /// The byte at the selected address; touching it grows the RAM.
    pub fn read(&mut self) -> (r: Word)
        ensures
            r == spec_mem_byte(old(self).values@, old(self).spec_address()),
            final(self).values@ == spec_grow(old(self).values@, old(self).spec_address()),
            final(self).low_latch == old(self).low_latch,
            final(self).hi_latch == old(self).hi_latch,
    {
        self.expand();
        let addr = self.address() as usize;
        proof {
            if old(self).spec_address() >= old(self).values@.len() {
                assert(self.values@[addr as int] == 0);
            }
        }
        self.values[addr]
    }

    /// Writes the byte at the selected address, growing the RAM as needed.
    pub fn write(&mut self, value: Word)
        ensures
            final(self).values@ == spec_grow(old(self).values@, old(self).spec_address()).update(
                old(self).spec_address(),
                value,
            ),
            final(self).low_latch == old(self).low_latch,
            final(self).hi_latch == old(self).hi_latch,
    {
        self.expand();
        let addr = self.address() as usize;
        self.values[addr] = value;
    }
}

impl Default for Memory {
    /// An untouched RAM with both latches at zero.
    fn default() -> (r: Memory)
        ensures
            r.values@ == Seq::<u8>::empty(),
            r.low_latch == 0,
            r.hi_latch == 0,
    {
        Memory { values: Vec::new(), low_latch: 0, hi_latch: 0 }
    }
}

/// The serial port as the core sees it: an input queue the transport fills
/// and an output queue the transport drains.  The byte stream itself is the
/// caller's business.
#[derive(Debug)]
pub struct Serial {
    pub input: Vec<u8>,
    pub output: Vec<u8>,
}

impl Serial {
    /// A port with nothing read and nothing written.
    pub fn new() -> (r: Serial)
        ensures
            r.input@ == Seq::<u8>::empty(),
            r.output@ == Seq::<u8>::empty(),
    {
        Serial { input: Vec::new(), output: Vec::new() }
    }

    /// Queues one byte for the transport to send.
    pub fn write(&mut self, value: Word)
        ensures
            final(self).output@ == old(self).output@.push(value),
            final(self).input@ == old(self).input@,
    {
        self.output.push(value);
    }

    /// The next byte of input, or nothing when the queue has run dry.
    pub fn read(&mut self) -> (r: Option<Word>)
        ensures
            old(self).input@.len() > 0 ==> r == Some(old(self).input@[0]) && final(self).input@
                == old(self).input@.skip(1),
            old(self).input@.len() == 0 ==> r is None && final(self).input@ == old(self).input@,
            final(self).output@ == old(self).output@,
    {
        if self.input.len() > 0 {
            Some(self.input.remove(0))
        } else {
            None
        }
    }
}

impl Default for Serial {
    /// A port with nothing read and nothing written.
    fn default() -> (r: Serial)
        ensures
            r.input@ == Seq::<u8>::empty(),
            r.output@ == Seq::<u8>::empty(),
    {
        Serial::new()
    }
}

/// The whole machine as mathematical data.
pub struct MachineView {
    pub flag_1: bool,
    pub flag_carry: bool,
    pub program: Seq<u8>,
    pub pc: u16,
    pub pc_latch: u8,
    pub acc: u8,
    pub ram: Seq<u8>,
    pub addr_lo: u8,
    pub addr_hi: u8,
    pub led: u8,
    pub ser_in: Seq<u8>,
    pub ser_out: Seq<u8>,
}

/// The machine: flags, program image, registers and ports.
#[derive(Debug)]
pub struct Emulator {
    pub flag_1: bool,
    pub flag_carry: bool,
    pub program: Vec<u8>,
    pub pc: ProgramCounter,
    pub acc: Accumulator,
    pub mem: Memory,
    pub led: Led,
    pub ser: Serial,
}

impl View for Emulator {
    type V = MachineView;

    open spec fn view(&self) -> MachineView {
        MachineView {
            flag_1: self.flag_1,
            flag_carry: self.flag_carry,
            program: self.program@,
            pc: self.pc.value,
            pc_latch: self.pc.latch,
            acc: self.acc.value,
            ram: self.mem.values@,
            addr_lo: self.mem.low_latch,
            addr_hi: self.mem.hi_latch,
            led: self.led.value,
            ser_in: self.ser.input@,
            ser_out: self.ser.output@,
        }
    }
}

/// The RAM address the machine's latches select.
pub open spec fn view_address(m: MachineView) -> int {
    m.addr_lo + m.addr_hi * 256
}

/// Whether the operation executes under the machine's flags: no condition
/// named means always, both named means either flag suffices.
pub open spec fn spec_cond(op: OpView, flag_1: bool, flag_carry: bool) -> bool {
    match (op.cond_1, op.cond_carry) {
        (false, false) => true,
        (true, false) => flag_1,
        (false, true) => flag_carry,
        (true, true) => flag_carry || flag_1,
    }
}

/// The byte a source yields, and the machine after yielding it — a memory
/// pull grows the RAM.  An expansion pull yields a byte the machine leaves
/// open; here it is 0.  The label forms never reach execution.
pub open spec fn spec_pull(m: MachineView, src: SrcView) -> (u8, MachineView) {
    match src {
        SrcView::Operand(value) => (value, m),
        SrcView::Accumulator => (m.acc, m),
        SrcView::Memory => (
            spec_mem_byte(m.ram, view_address(m)),
            MachineView { ram: spec_grow(m.ram, view_address(m)), ..m },
        ),
        _ => (0u8, m),
    }
}

/// The machine after a byte is pushed to a destination.  Exactly one flag
/// can change: a write to the accumulator sets the one flag iff the byte is
/// `0xFF`; an add sets the carry flag iff the add overflowed; the two carry
/// destinations set it outright.  An expansion-select push is a no-op.
pub open spec fn spec_push(m: MachineView, dest: Destination, value: u8) -> MachineView {
    match dest {
        Destination::ProgramCounterLatch => MachineView { pc_latch: value, ..m },
        Destination::ProgramCounter => MachineView {
            pc: (m.pc_latch * 256 + value) as u16,
            ..m
        },
        Destination::Accumulator => MachineView { acc: value, flag_1: value == 0xFF, ..m },
        Destination::AccumulatorPlus => MachineView {
            acc: ((m.acc + value) % 256) as u8,
            flag_carry: m.acc + value >= 256,
            ..m
        },
        Destination::AccumulatorNand => MachineView { acc: !(m.acc & value), ..m },
        Destination::Led => MachineView { led: value, ..m },
        Destination::Memory => MachineView {
            ram: spec_grow(m.ram, view_address(m)).update(view_address(m), value),
            ..m
        },
        Destination::MemAddressLo => MachineView { addr_lo: value, ..m },
        Destination::MemAddressHi => MachineView { addr_hi: value, ..m },
        Destination::Serial => MachineView { ser_out: m.ser_out.push(value), ..m },
        Destination::CarrySet => MachineView { flag_carry: true, ..m },
        Destination::CarryReset => MachineView { flag_carry: false, ..m },
        Destination::ExpansionSelect => m,
    }
}

/// One whole step: decode at the program counter, advance it by the bytes
/// consumed, reject an immediate-to-memory operation, evaluate the
/// condition, pull and push.  Returns the step's outcome and the machine
/// after it; a failed step leaves the machine as far as it got.
pub open spec fn spec_step(m: MachineView) -> (Result<(), EmuErrView>, MachineView) {
    match crate::decoder::spec_read_operation(m.program, m.pc as int) {
        Err(e) => (Err(EmuErrView::Decoder(e)), m),
        Ok((op, n)) => {
            let m1 = MachineView { pc: wrap16(m.pc + n), ..m };
            if op.src is Operand && op.dest == Destination::Memory {
                (Err(EmuErrView::Illegal(op)), m1)
            } else if spec_cond(op, m1.flag_1, m1.flag_carry) {
                let (value, m2) = spec_pull(m1, op.src);
                (Ok(()), spec_push(m2, op.dest, value))
            } else {
                (Ok(()), m1)
            }
        },
    }
}

/// The machine a freshly loaded program starts in: everything zero but the
/// image.
pub open spec fn spec_initial(program: Seq<u8>) -> MachineView {
    MachineView {
        flag_1: false,
        flag_carry: false,
        program,
        pc: 0,
        pc_latch: 0,
        acc: 0,
        ram: Seq::empty(),
        addr_lo: 0,
        addr_hi: 0,
        led: 0,
        ser_in: Seq::empty(),
        ser_out: Seq::empty(),
    }
}

impl Emulator {
    /// Loads a bytecode image.  An empty image is an *invalid read*; one
    /// whose first byte is not the `0x4C` prologue is *missing initial NOP*.
    pub fn from_program(program: Vec<u8>) -> (r: Result<Emulator, EmulatorError>)
        ensures
            match r {
                Ok(em) => program@.len() > 0 && program@[0] == 0x4C && em@ == spec_initial(
                    program@,
                ),
                Err(e) => match e@ {
                    EmuErrView::Decoder(d) => program@.len() == 0 && d
                        == DecoderError::InvalidRead,
                    EmuErrView::MissingNop => program@.len() > 0 && program@[0] != 0x4C,
                    _ => false,
                },
            },
    {
        if program.len() == 0 {
            return Err(EmulatorError::Decoder(DecoderError::InvalidRead));
        }
        let first_instruction = program[0];
        if first_instruction != 0b01_0011_00 {
            return Err(EmulatorError::MissingNop);
        }
        Ok(
            Emulator {
                flag_1: false,
                flag_carry: false,
                program,
                pc: ProgramCounter { value: 0, latch: 0 },
                acc: Accumulator { value: 0 },
                mem: Memory { values: Vec::new(), low_latch: 0, hi_latch: 0 },
                led: Led { value: 0 },
                ser: Serial::new(),
            },
        )
    }

    /// Pulls a byte from a source.  Only the decoder's sources arrive here:
    /// the label forms exist before assembly alone.
    pub fn pull(&mut self, src: Source) -> (r: Word)
        requires
            !(src@ is LabelLo),
            !(src@ is LabelHi),
        ensures
            ({
                let (value, m2) = spec_pull(old(self)@, src@);
                r == value && final(self)@ == m2
            }),
    {
        match src {
            Source::Operand(value) => value,
            Source::Accumulator => self.acc.get(),
            Source::Memory => self.mem.read(),
            _ => 0,
        }
    }

    /// Pushes a byte to a destination.
    pub fn push(&mut self, dest: Destination, value: Word)
        ensures
            final(self)@ == spec_push(old(self)@, dest, value),
    {
        match dest {
            Destination::ProgramCounterLatch => self.pc.latch(value),
            Destination::ProgramCounter => self.pc.jump(value),
            Destination::Accumulator => {
                self.flag_1 = self.acc.set(value);
            },
            Destination::AccumulatorPlus => {
                self.flag_carry = self.acc.add(value);
            },
            Destination::AccumulatorNand => self.acc.nand(value),
            Destination::Led => self.led.set(value),
            Destination::Memory => self.mem.write(value),
            Destination::MemAddressLo => self.mem.latch_low(value),
            Destination::MemAddressHi => self.mem.latch_high(value),
            Destination::Serial => self.ser.write(value),
            Destination::CarrySet => {
                self.flag_carry = true;
            },
            Destination::CarryReset => {
                self.flag_carry = false;
            },
            Destination::ExpansionSelect => {},
        }
    }

    /// One step of the machine: exactly the transition `spec_step` of the
    /// machine's view.
    pub fn step(&mut self) -> (r: Result<(), EmulatorError>)
        ensures
            ({
                let (outcome, after) = spec_step(old(self)@);
                final(self)@ == after && match r {
                    Ok(()) => outcome is Ok,
                    Err(e) => outcome == Err::<(), EmuErrView>(e@),
                }
            }),
    {
        let pcv = self.pc.get();
        let (op, advance) = match decoder::read_operation(self.program.as_slice(), pcv as usize) {
            Ok(x) => x,
            Err(e) => return Err(EmulatorError::Decoder(e)),
        };
        self.pc.advance(advance as u16);

        let illegal = match (&op.src, &op.dest) {
            (Source::Operand(_), Destination::Memory) => true,
            _ => false,
        };
        if illegal {
            return Err(EmulatorError::Illegal(op));
        }

        let execute = match (op.cond_1, op.cond_carry) {
            (false, false) => true,
            (true, false) => self.flag_1,
            (false, true) => self.flag_carry,
            (true, true) => self.flag_carry || self.flag_1,
        };

        if execute {
            let word = self.pull(op.src);
            self.push(op.dest, word);
        }

        Ok(())
    }
}

// ---------------------------------------------------------------------------
// Laws of the machine.
// ---------------------------------------------------------------------------

/// Law: a step that decodes its operation advances the program counter by
/// exactly the one or two bytes the operation occupies, modulo 2^16; only
/// an executed write to the program counter moves it anywhere else.
pub proof fn lemma_step_pc_advance(m: MachineView)
    requires
        crate::decoder::spec_read_operation(m.program, m.pc as int) is Ok,
    ensures
        ({
            let (op, n) = crate::decoder::spec_read_operation(m.program, m.pc as int)->Ok_0;
            &&& (n == 1 || n == 2)
            &&& (op.dest != Destination::ProgramCounter || !spec_cond(op, m.flag_1, m.flag_carry))
                ==> spec_step(m).1.pc == wrap16(m.pc + n)
        }),
{
}

/// Law: a write to the accumulator sets the one flag exactly when the byte
/// written is `0xFF`; no other destination touches that flag.
pub proof fn lemma_one_flag(m: MachineView, dest: Destination, value: u8)
    ensures
        spec_push(m, Destination::Accumulator, value).flag_1 == (value == 0xFF),
        dest != Destination::Accumulator ==> spec_push(m, dest, value).flag_1 == m.flag_1,
{
}

/// Law: after an add to the accumulator the carry flag holds exactly the
/// unsigned-add overflow of the prior accumulator and the value.
pub proof fn lemma_carry_flag(m: MachineView, value: u8)
    ensures
        spec_push(m, Destination::AccumulatorPlus, value).flag_carry == (m.acc + value >= 256),
{
}

/// Law: setting the carry flag and then resetting it leaves it clear,
/// whatever it held before.
pub proof fn lemma_carry_set_then_reset(m: MachineView, v1: u8, v2: u8)
    ensures
        !spec_push(spec_push(m, Destination::CarrySet, v1), Destination::CarryReset, v2).flag_carry,
{
}

/// Law: each of two NAND writes with the same operand satisfies the NAND
/// equation — the accumulator becomes the negated AND of its prior value
/// and the operand, and neither flag moves.
pub proof fn lemma_nand_twice(m: MachineView, v: u8)
    ensures
        ({
            let m1 = spec_push(m, Destination::AccumulatorNand, v);
            let m2 = spec_push(m1, Destination::AccumulatorNand, v);
            &&& m1.acc == !(m.acc & v)
            &&& m2.acc == !(m1.acc & v)
            &&& m2.flag_1 == m.flag_1 && m2.flag_carry == m.flag_carry
        }),
{
}

} // verus!
