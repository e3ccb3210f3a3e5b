//! Instructions and programs.

use vstd::prelude::*;
use vstd::string::*;

use crate::numeric::Numeric;
use crate::text::{
    decimal, decimal_text, right_aligned, right_aligned_decimal4, signed_decimal,
    signed_decimal_text,
};

verus! {

/// One machine instruction. Operand-carrying variants hold their operand
/// inline; `Push` holds a value of the machine's value type `V`.
#[derive(Debug, Clone, Copy, PartialEq)]
pub enum Opcode<V> {
    Push(V),
    Dup,
    Pop,
    Swap,
    Add,
    Sub,
    Mul,
    Div,
    Neg,
    Load(u8),
    Store(u8),
    Jmp(i16),
    Jz(i16),
    Jnz(i16),
    Call(u8),
    Ret,
    Lt,
    Gt,
    Eq,
    And,
    Or,
    Not,
    Print,
    Halt,
    VibeGet,
    VibeSet,
    Sense(u8),
    Act(u8),
}

impl<V> Opcode<V> {
    /// The position of the variant in the instruction set, operands aside.
    pub open spec fn kind(self) -> nat {
        match self {
            Opcode::Push(_) => 0,
            Opcode::Dup => 1,
            Opcode::Pop => 2,
            Opcode::Swap => 3,
            Opcode::Add => 4,
            Opcode::Sub => 5,
            Opcode::Mul => 6,
            Opcode::Div => 7,
            Opcode::Neg => 8,
            Opcode::Load(_) => 9,
            Opcode::Store(_) => 10,
            Opcode::Jmp(_) => 11,
            Opcode::Jz(_) => 12,
            Opcode::Jnz(_) => 13,
            Opcode::Call(_) => 14,
            Opcode::Ret => 15,
            Opcode::Lt => 16,
            Opcode::Gt => 17,
            Opcode::Eq => 18,
            Opcode::And => 19,
            Opcode::Or => 20,
            Opcode::Not => 21,
            Opcode::Print => 22,
            Opcode::Halt => 23,
            Opcode::VibeGet => 24,
            Opcode::VibeSet => 25,
            Opcode::Sense(_) => 26,
            Opcode::Act(_) => 27,
        }
    }

    /// The byte code of the instruction, grouped by category: stack 0x01..0x04,
    /// arithmetic 0x10..0x14, locals 0x20..0x21, control 0x30..0x34,
    /// comparison 0x40..0x42, logic 0x50..0x52, print 0x60, vibe 0x70..0x71,
    /// I/O 0x80..0x81, halt 0xFF.
    pub open spec fn code(self) -> u8 {
        match self {
            Opcode::Push(_) => 0x01,
            Opcode::Dup => 0x02,
            Opcode::Pop => 0x03,
            Opcode::Swap => 0x04,
            Opcode::Add => 0x10,
            Opcode::Sub => 0x11,
            Opcode::Mul => 0x12,
            Opcode::Div => 0x13,
            Opcode::Neg => 0x14,
            Opcode::Load(_) => 0x20,
            Opcode::Store(_) => 0x21,
            Opcode::Jmp(_) => 0x30,
            Opcode::Jz(_) => 0x31,
            Opcode::Jnz(_) => 0x32,
            Opcode::Call(_) => 0x33,
            Opcode::Ret => 0x34,
            Opcode::Lt => 0x40,
            Opcode::Gt => 0x41,
            Opcode::Eq => 0x42,
            Opcode::And => 0x50,
            Opcode::Or => 0x51,
            Opcode::Not => 0x52,
            Opcode::Print => 0x60,
            Opcode::Halt => 0xFF,
            Opcode::VibeGet => 0x70,
            Opcode::VibeSet => 0x71,
            Opcode::Sense(_) => 0x80,
            Opcode::Act(_) => 0x81,
        }
    }

    /// The byte code of the instruction (see [`Opcode::code`]).
    pub fn discriminant(&self) -> (r: u8)
        ensures
            r == self.code(),
    {
        match self {
            Opcode::Push(_) => 0x01,
            Opcode::Dup => 0x02,
            Opcode::Pop => 0x03,
            Opcode::Swap => 0x04,
            Opcode::Add => 0x10,
            Opcode::Sub => 0x11,
            Opcode::Mul => 0x12,
            Opcode::Div => 0x13,
            Opcode::Neg => 0x14,
            Opcode::Load(_) => 0x20,
            Opcode::Store(_) => 0x21,
            Opcode::Jmp(_) => 0x30,
            Opcode::Jz(_) => 0x31,
            Opcode::Jnz(_) => 0x32,
            Opcode::Call(_) => 0x33,
            Opcode::Ret => 0x34,
            Opcode::Lt => 0x40,
            Opcode::Gt => 0x41,
            Opcode::Eq => 0x42,
            Opcode::And => 0x50,
            Opcode::Or => 0x51,
            Opcode::Not => 0x52,
            Opcode::Print => 0x60,
            Opcode::Halt => 0xFF,
            Opcode::VibeGet => 0x70,
            Opcode::VibeSet => 0x71,
            Opcode::Sense(_) => 0x80,
            Opcode::Act(_) => 0x81,
        }
    }

    /// The mnemonic of the instruction, as the assembler reads it and a listing shows it.
    pub open spec fn name(self) -> Seq<char> {
        match self {
            Opcode::Push(_) => "PUSH"@,
            Opcode::Dup => "DUP"@,
            Opcode::Pop => "POP"@,
            Opcode::Swap => "SWAP"@,
            Opcode::Add => "ADD"@,
            Opcode::Sub => "SUB"@,
            Opcode::Mul => "MUL"@,
            Opcode::Div => "DIV"@,
            Opcode::Neg => "NEG"@,
            Opcode::Load(_) => "LOAD"@,
            Opcode::Store(_) => "STORE"@,
            Opcode::Jmp(_) => "JMP"@,
            Opcode::Jz(_) => "JZ"@,
            Opcode::Jnz(_) => "JNZ"@,
            Opcode::Call(_) => "CALL"@,
            Opcode::Ret => "RET"@,
            Opcode::Lt => "LT"@,
            Opcode::Gt => "GT"@,
            Opcode::Eq => "EQ"@,
            Opcode::And => "AND"@,
            Opcode::Or => "OR"@,
            Opcode::Not => "NOT"@,
            Opcode::Print => "PRINT"@,
            Opcode::Halt => "HALT"@,
            Opcode::VibeGet => "VIBE_GET"@,
            Opcode::VibeSet => "VIBE_SET"@,
            Opcode::Sense(_) => "SENSE"@,
            Opcode::Act(_) => "ACT"@,
        }
    }

    /// The mnemonic of the instruction (see [`Opcode::name`]).
    pub fn mnemonic(&self) -> (r: &'static str)
        ensures
            r@ == self.name(),
    {
        match self {
            Opcode::Push(_) => "PUSH",
            Opcode::Dup => "DUP",
            Opcode::Pop => "POP",
            Opcode::Swap => "SWAP",
            Opcode::Add => "ADD",
            Opcode::Sub => "SUB",
            Opcode::Mul => "MUL",
            Opcode::Div => "DIV",
            Opcode::Neg => "NEG",
            Opcode::Load(_) => "LOAD",
            Opcode::Store(_) => "STORE",
            Opcode::Jmp(_) => "JMP",
            Opcode::Jz(_) => "JZ",
            Opcode::Jnz(_) => "JNZ",
            Opcode::Call(_) => "CALL",
            Opcode::Ret => "RET",
            Opcode::Lt => "LT",
            Opcode::Gt => "GT",
            Opcode::Eq => "EQ",
            Opcode::And => "AND",
            Opcode::Or => "OR",
            Opcode::Not => "NOT",
            Opcode::Print => "PRINT",
            Opcode::Halt => "HALT",
            Opcode::VibeGet => "VIBE_GET",
            Opcode::VibeSet => "VIBE_SET",
            Opcode::Sense(_) => "SENSE",
            Opcode::Act(_) => "ACT",
        }
    }

    /// The operand as a listing shows it; `constant` is the shown form of a `Push` value.
    pub open spec fn operand_text(self, constant: Seq<char>) -> Option<Seq<char>> {
        match self {
            Opcode::Push(_) => Some(constant),
            Opcode::Load(i) => Some(decimal(i as nat)),
            Opcode::Store(i) => Some(decimal(i as nat)),
            Opcode::Call(i) => Some(decimal(i as nat)),
            Opcode::Sense(i) => Some(decimal(i as nat)),
            Opcode::Act(i) => Some(decimal(i as nat)),
            Opcode::Jmp(o) => Some(signed_decimal(o as int)),
            Opcode::Jz(o) => Some(signed_decimal(o as int)),
            Opcode::Jnz(o) => Some(signed_decimal(o as int)),
            _ => None,
        }
    }

    /// The instruction as a listing shows it: the mnemonic, then a space and
    /// the operand if it has one; `constant` is the shown form of a `Push` value.
    pub open spec fn text(self, constant: Seq<char>) -> Seq<char> {
        match self.operand_text(constant) {
            Some(t) => self.name() + seq![' '] + t,
            None => self.name(),
        }
    }

    /// The same instruction with `w` in place of the `Push` constant.
    pub open spec fn with_constant<W>(self, w: W) -> Opcode<W> {
        match self {
            Opcode::Push(_) => Opcode::Push(w),
            Opcode::Dup => Opcode::Dup,
            Opcode::Pop => Opcode::Pop,
            Opcode::Swap => Opcode::Swap,
            Opcode::Add => Opcode::Add,
            Opcode::Sub => Opcode::Sub,
            Opcode::Mul => Opcode::Mul,
            Opcode::Div => Opcode::Div,
            Opcode::Neg => Opcode::Neg,
            Opcode::Load(i) => Opcode::Load(i),
            Opcode::Store(i) => Opcode::Store(i),
            Opcode::Jmp(o) => Opcode::Jmp(o),
            Opcode::Jz(o) => Opcode::Jz(o),
            Opcode::Jnz(o) => Opcode::Jnz(o),
            Opcode::Call(i) => Opcode::Call(i),
            Opcode::Ret => Opcode::Ret,
            Opcode::Lt => Opcode::Lt,
            Opcode::Gt => Opcode::Gt,
            Opcode::Eq => Opcode::Eq,
            Opcode::And => Opcode::And,
            Opcode::Or => Opcode::Or,
            Opcode::Not => Opcode::Not,
            Opcode::Print => Opcode::Print,
            Opcode::Halt => Opcode::Halt,
            Opcode::VibeGet => Opcode::VibeGet,
            Opcode::VibeSet => Opcode::VibeSet,
            Opcode::Sense(i) => Opcode::Sense(i),
            Opcode::Act(i) => Opcode::Act(i),
        }
    }
}

/// The byte code of each instruction: stack `PUSH` 0x01, `DUP` 0x02, `POP`
/// 0x03, `SWAP` 0x04; arithmetic `ADD` 0x10, `SUB` 0x11, `MUL` 0x12, `DIV`
/// 0x13, `NEG` 0x14; locals `LOAD` 0x20, `STORE` 0x21; control `JMP` 0x30,
/// `JZ` 0x31, `JNZ` 0x32, `CALL` 0x33, `RET` 0x34; comparison `LT` 0x40, `GT`
/// 0x41, `EQ` 0x42; logic `AND` 0x50, `OR` 0x51, `NOT` 0x52; `PRINT` 0x60;
/// vibe `VIBE_GET` 0x70, `VIBE_SET` 0x71; I/O `SENSE` 0x80, `ACT` 0x81;
/// `HALT` 0xFF. The operand plays no part.
pub proof fn lemma_code_table<V>(op: Opcode<V>)
    ensures
        op matches Opcode::Push(_) ==> op.code() == 0x01,
        op matches Opcode::Dup ==> op.code() == 0x02,
        op matches Opcode::Pop ==> op.code() == 0x03,
        op matches Opcode::Swap ==> op.code() == 0x04,
        op matches Opcode::Add ==> op.code() == 0x10,
        op matches Opcode::Sub ==> op.code() == 0x11,
        op matches Opcode::Mul ==> op.code() == 0x12,
        op matches Opcode::Div ==> op.code() == 0x13,
        op matches Opcode::Neg ==> op.code() == 0x14,
        op matches Opcode::Load(_) ==> op.code() == 0x20,
        op matches Opcode::Store(_) ==> op.code() == 0x21,
        op matches Opcode::Jmp(_) ==> op.code() == 0x30,
        op matches Opcode::Jz(_) ==> op.code() == 0x31,
        op matches Opcode::Jnz(_) ==> op.code() == 0x32,
        op matches Opcode::Call(_) ==> op.code() == 0x33,
        op matches Opcode::Ret ==> op.code() == 0x34,
        op matches Opcode::Lt ==> op.code() == 0x40,
        op matches Opcode::Gt ==> op.code() == 0x41,
        op matches Opcode::Eq ==> op.code() == 0x42,
        op matches Opcode::And ==> op.code() == 0x50,
        op matches Opcode::Or ==> op.code() == 0x51,
        op matches Opcode::Not ==> op.code() == 0x52,
        op matches Opcode::Print ==> op.code() == 0x60,
        op matches Opcode::Halt ==> op.code() == 0xFF,
        op matches Opcode::VibeGet ==> op.code() == 0x70,
        op matches Opcode::VibeSet ==> op.code() == 0x71,
        op matches Opcode::Sense(_) ==> op.code() == 0x80,
        op matches Opcode::Act(_) ==> op.code() == 0x81,
{
}

/// The mnemonic of each instruction, as the assembler reads it and a listing
/// shows it: the instruction's name in upper case (`VIBE_GET` and `VIBE_SET`
/// for the vibe instructions).
pub proof fn lemma_name_table<V>(op: Opcode<V>)
    ensures
        op matches Opcode::Push(_) ==> op.name() == "PUSH"@,
        op matches Opcode::Dup ==> op.name() == "DUP"@,
        op matches Opcode::Pop ==> op.name() == "POP"@,
        op matches Opcode::Swap ==> op.name() == "SWAP"@,
        op matches Opcode::Add ==> op.name() == "ADD"@,
        op matches Opcode::Sub ==> op.name() == "SUB"@,
        op matches Opcode::Mul ==> op.name() == "MUL"@,
        op matches Opcode::Div ==> op.name() == "DIV"@,
        op matches Opcode::Neg ==> op.name() == "NEG"@,
        op matches Opcode::Load(_) ==> op.name() == "LOAD"@,
        op matches Opcode::Store(_) ==> op.name() == "STORE"@,
        op matches Opcode::Jmp(_) ==> op.name() == "JMP"@,
        op matches Opcode::Jz(_) ==> op.name() == "JZ"@,
        op matches Opcode::Jnz(_) ==> op.name() == "JNZ"@,
        op matches Opcode::Call(_) ==> op.name() == "CALL"@,
        op matches Opcode::Ret ==> op.name() == "RET"@,
        op matches Opcode::Lt ==> op.name() == "LT"@,
        op matches Opcode::Gt ==> op.name() == "GT"@,
        op matches Opcode::Eq ==> op.name() == "EQ"@,
        op matches Opcode::And ==> op.name() == "AND"@,
        op matches Opcode::Or ==> op.name() == "OR"@,
        op matches Opcode::Not ==> op.name() == "NOT"@,
        op matches Opcode::Print ==> op.name() == "PRINT"@,
        op matches Opcode::Halt ==> op.name() == "HALT"@,
        op matches Opcode::VibeGet ==> op.name() == "VIBE_GET"@,
        op matches Opcode::VibeSet ==> op.name() == "VIBE_SET"@,
        op matches Opcode::Sense(_) ==> op.name() == "SENSE"@,
        op matches Opcode::Act(_) ==> op.name() == "ACT"@,
{
}

/// The byte code tells the kind of instruction: two instructions have the
/// same code exactly when they are the same kind of instruction.
pub proof fn lemma_discriminant_identifies_kind<V>(a: Opcode<V>, b: Opcode<V>)
    ensures
        a.code() == b.code() <==> a.kind() == b.kind(),
{
}

/// How a listing shows the `Push` constant of `op`: as `numeric` formats it
/// (nothing for other instructions).
pub open spec fn shown_constant<V, N: Numeric<V>>(numeric: &N, op: Opcode<V>) -> Seq<char> {
    match op {
        Opcode::Push(v) => numeric.format_value(v)@,
        _ => Seq::empty(),
    }
}

impl<V: Copy> Opcode<V> {
    /// The instruction as a listing shows it (see [`Opcode::text`]); a `Push`
    /// constant is shown as `numeric` formats it.
    pub fn to_text<N: Numeric<V>>(&self, numeric: &N) -> (r: String)
        ensures
            r@ == self.text(shown_constant(numeric, *self)),
    {
        proof {
            reveal_strlit(" ");
        }
        let mut s = String::from_str(self.mnemonic());
        match self {
            Opcode::Push(v) => {
                let shown = numeric.format(*v);
                s.append(" ");
                s.append(shown.as_str());
                assert(s@ == self.text(shown@));
            },
            Opcode::Load(i) | Opcode::Store(i) | Opcode::Call(i) | Opcode::Sense(i) | Opcode::Act(
                i,
            ) => {
                let shown = decimal_text(*i as u64);
                s.append(" ");
                s.append(shown.as_str());
                assert(s@ == self.text(Seq::empty()));
            },
            Opcode::Jmp(o) | Opcode::Jz(o) | Opcode::Jnz(o) => {
                let shown = signed_decimal_text(*o as i64);
                s.append(" ");
                s.append(shown.as_str());
                assert(s@ == self.text(Seq::empty()));
            },
            _ => {
                assert(s@ == self.text(Seq::empty()));
            },
        }
        s
    }
}

/// An instruction with the source line it came from (or its index, for
/// instructions appended by [`Bytecode::push`]).
#[derive(Debug, Clone, Copy, PartialEq)]
pub struct Instruction<V> {
    pub opcode: Opcode<V>,
    pub line: u32,
}

impl<V> Instruction<V> {
    pub fn new(opcode: Opcode<V>, line: u32) -> (r: Self)
        ensures
            r == (Instruction { opcode, line }),
    {
        Instruction { opcode, line }
    }
}

/// A program: a sequence of instructions, indexed from 0.
#[derive(Debug, Clone)]
pub struct Bytecode<V> {
    pub instructions: Vec<Instruction<V>>,
}

impl<V> View for Bytecode<V> {
    type V = Seq<Instruction<V>>;

    open spec fn view(&self) -> Seq<Instruction<V>> {
        self.instructions@
    }
}

/// One line of a listing: the index right-aligned in four columns, a colon,
/// two spaces, and the instruction's text.
pub open spec fn listing_line(index: nat, text: Seq<char>) -> Seq<char> {
    right_aligned(decimal(index), 4) + ":  "@ + text
}

impl<V> Bytecode<V> {
    /// An empty program.
    pub fn new() -> (r: Self)
        ensures
            r@ == Seq::<Instruction<V>>::empty(),
    {
        Bytecode { instructions: Vec::new() }
    }

    /// Appends `op`, recording its index (truncated to 32 bits) as its line.
    pub fn push(&mut self, op: Opcode<V>)
        ensures
            final(self)@ == old(self)@.push(
                Instruction { opcode: op, line: old(self)@.len() as u32 },
            ),
    {
        let line = self.instructions.len() as u32;
        self.instructions.push(Instruction::new(op, line));
    }

    /// The number of instructions.
    pub fn len(&self) -> (r: usize)
        ensures
            r == self@.len(),
    {
        self.instructions.len()
    }

    /// Whether the program has no instruction.
    pub fn is_empty(&self) -> (r: bool)
        ensures
            r == (self@.len() == 0),
    {
        self.instructions.len() == 0
    }
}

impl<V: Copy> Bytecode<V> {
    /// A listing of the program, one line per instruction (see [`listing_line`]);
    /// `Push` constants are shown as `numeric` formats them.
    pub fn disassemble<N: Numeric<V>>(&self, numeric: &N) -> (r: Vec<String>)
        ensures
            r@.len() == self@.len(),
            forall|i: int|
                0 <= i < self@.len() ==> #[trigger] r@[i]@ == listing_line(
                    i as nat,
                    self@[i].opcode.text(shown_constant(numeric, self@[i].opcode)),
                ),
    {
        let mut lines: Vec<String> = Vec::new();
        let n = self.instructions.len();
        for i in 0..n
            invariant
                n == self@.len(),
                lines@.len() == i,
                forall|j: int|
                    0 <= j < i ==> #[trigger] lines@[j]@ == listing_line(
                        j as nat,
                        self@[j].opcode.text(shown_constant(numeric, self@[j].opcode)),
                    ),
        {
            let shown = self.instructions[i].opcode.to_text(numeric);
            let mut line = right_aligned_decimal4(i as u64);
            line.append(":  ");
            line.append(shown.as_str());
            let ghost before = lines@;
            lines.push(line);
            assert forall|j: int| 0 <= j < i + 1 implies #[trigger] lines@[j]@ == listing_line(
                j as nat,
                self@[j].opcode.text(shown_constant(numeric, self@[j].opcode)),
            ) by {
                if j < i {
                    assert(lines@[j] == before[j]);
                }
            }
        }
        lines
    }
}

/// `op` with its `Push` literal turned into the value `numeric` reads from it.
pub open spec fn loaded<W, N: Numeric<W>>(numeric: &N, op: Opcode<String>) -> Opcode<W> {
    match op {
        Opcode::Push(l) => Opcode::Push(numeric.parse_value(l)),
        _ => op.with_constant(vstd::pervasive::arbitrary()),
    }
}

/// Loading turns the literal of a `PUSH` into the host's value of it and
/// keeps every other instruction as it is: the same kind of instruction,
/// with the same operand.
pub proof fn lemma_load_keeps_instructions<W, N: Numeric<W>>(numeric: &N, op: Opcode<String>)
    ensures
        loaded(numeric, op).kind() == op.kind(),
        loaded(numeric, op).code() == op.code(),
        op matches Opcode::Push(l) ==> loaded(numeric, op) == Opcode::<W>::Push(numeric.parse_value(l)),
        op matches Opcode::Load(i) ==> loaded(numeric, op) == Opcode::<W>::Load(i),
        op matches Opcode::Store(i) ==> loaded(numeric, op) == Opcode::<W>::Store(i),
        op matches Opcode::Jmp(o) ==> loaded(numeric, op) == Opcode::<W>::Jmp(o),
        op matches Opcode::Jz(o) ==> loaded(numeric, op) == Opcode::<W>::Jz(o),
        op matches Opcode::Jnz(o) ==> loaded(numeric, op) == Opcode::<W>::Jnz(o),
        op matches Opcode::Call(t) ==> loaded(numeric, op) == Opcode::<W>::Call(t),
        op matches Opcode::Sense(c) ==> loaded(numeric, op) == Opcode::<W>::Sense(c),
        op matches Opcode::Act(c) ==> loaded(numeric, op) == Opcode::<W>::Act(c),
{
}

impl Bytecode<String> {
    /// The program with each `Push` literal turned into a value by `numeric`;
    /// every other instruction, and every line, stays as it is.
    pub fn load<W: Copy, N: Numeric<W>>(&self, numeric: &N) -> (r: Bytecode<W>)
        ensures
            r@.len() == self@.len(),
            forall|i: int|
                #![trigger r@[i]]
                0 <= i < self@.len() ==> r@[i] == (Instruction {
                    opcode: loaded(numeric, self@[i].opcode),
                    line: self@[i].line,
                }),
    {
        let mut out: Vec<Instruction<W>> = Vec::new();
        let n = self.instructions.len();
        for i in 0..n
            invariant
                n == self@.len(),
                out@.len() == i,
                forall|j: int|
                    #![trigger out@[j]]
                    0 <= j < i ==> out@[j] == (Instruction {
                        opcode: loaded(numeric, self@[j].opcode),
                        line: self@[j].line,
                    }),
        {
            let ins = &self.instructions[i];
            let op = load_opcode(&ins.opcode, numeric);
            out.push(Instruction::new(op, ins.line));
        }
        Bytecode { instructions: out }
    }
}

fn load_opcode<W: Copy, N: Numeric<W>>(op: &Opcode<String>, numeric: &N) -> (r: Opcode<W>)
    ensures
        r == loaded(numeric, *op),
{
    let r = match op {
        Opcode::Push(literal) => {
            let w = numeric.parse(literal);
            Opcode::Push(w)
        },
        Opcode::Dup => Opcode::Dup,
        Opcode::Pop => Opcode::Pop,
        Opcode::Swap => Opcode::Swap,
        Opcode::Add => Opcode::Add,
        Opcode::Sub => Opcode::Sub,
        Opcode::Mul => Opcode::Mul,
        Opcode::Div => Opcode::Div,
        Opcode::Neg => Opcode::Neg,
        Opcode::Load(i) => Opcode::Load(*i),
        Opcode::Store(i) => Opcode::Store(*i),
        Opcode::Jmp(o) => Opcode::Jmp(*o),
        Opcode::Jz(o) => Opcode::Jz(*o),
        Opcode::Jnz(o) => Opcode::Jnz(*o),
        Opcode::Call(i) => Opcode::Call(*i),
        Opcode::Ret => Opcode::Ret,
        Opcode::Lt => Opcode::Lt,
        Opcode::Gt => Opcode::Gt,
        Opcode::Eq => Opcode::Eq,
        Opcode::And => Opcode::And,
        Opcode::Or => Opcode::Or,
        Opcode::Not => Opcode::Not,
        Opcode::Print => Opcode::Print,
        Opcode::Halt => Opcode::Halt,
        Opcode::VibeGet => Opcode::VibeGet,
        Opcode::VibeSet => Opcode::VibeSet,
        Opcode::Sense(i) => Opcode::Sense(*i),
        Opcode::Act(i) => Opcode::Act(*i),
    };
    r
}

impl<V> Default for Bytecode<V> {
    fn default() -> (r: Self)
        ensures
            r@ == Seq::<Instruction<V>>::empty(),
    {
        Bytecode::new()
    }
}

} // verus!
