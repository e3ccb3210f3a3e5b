//! The assembler: program text to [`Bytecode`].
//!
//! Program text is read line by line. A line is trimmed; an empty line, or
//! one starting with `#` or `;`, is skipped. A line ending with `:` defines a
//! label (case-insensitive) at the index of the next instruction. Any other
//! line is an instruction: a mnemonic (case-insensitive) and, where the
//! instruction takes one, an operand; further words are ignored. `JMP`, `JZ`,
//! `JNZ` and `CALL` take a number or a label reference `@name`; jumps get the
//! distance from the instruction to the label, `CALL` the label's index.
//! `PUSH` constants are kept as their literal text; [`Bytecode::load`] turns
//! them into values.

use vstd::prelude::*;
use vstd::string::*;

use crate::program::{Bytecode, Instruction, Opcode};
use crate::text::{
    ascii_lower, ascii_upper, is_ascii,
    char_is_space, decimal, decimal_text, i16_literal, is_number_literal, is_space,
    lemma_leading_space, lemma_trailing_space, lemma_word_len, leading_space, number_literal_ok,
    parse_i16_text, parse_u8_text, text_is, trailing_space, trim, trim_start, u8_literal,
    word_len,
};

verus! {

// ---------------------------------------------------------------------------
// Case mapping
// ---------------------------------------------------------------------------

/// What `str::to_uppercase` returns for a string with the characters `s`.
pub uninterp spec fn str_uppercase(s: Seq<char>) -> Seq<char>;

/// What `str::to_lowercase` returns for a string with the characters `s`.
pub uninterp spec fn str_lowercase(s: Seq<char>) -> Seq<char>;

/// Which case mapping turns mnemonics to upper case and label names to lower
/// case: that of `str::to_uppercase` and `str::to_lowercase` (which on an
/// ASCII word is the ASCII one), or the ASCII one throughout.
pub enum Casing {
    Std,
    Ascii,
}

/// `s` in upper case: by the ASCII rules if `s` is ASCII, else as
/// `str::to_uppercase` gives it (or by the ASCII rules throughout, for `Ascii`).
pub open spec fn upper_in(casing: Casing, s: Seq<char>) -> Seq<char> {
    match casing {
        Casing::Std => if is_ascii(s) {
            ascii_upper(s)
        } else {
            str_uppercase(s)
        },
        Casing::Ascii => ascii_upper(s),
    }
}

/// `s` in lower case: by the ASCII rules if `s` is ASCII, else as
/// `str::to_lowercase` gives it (or by the ASCII rules throughout, for `Ascii`).
pub open spec fn lower_in(casing: Casing, s: Seq<char>) -> Seq<char> {
    match casing {
        Casing::Std => if is_ascii(s) {
            ascii_lower(s)
        } else {
            str_lowercase(s)
        },
        Casing::Ascii => ascii_lower(s),
    }
}

/// Calls `str::to_uppercase`. The contract names its result (Unicode's case
/// mapping, which it does not state) and says that on ASCII text it maps
/// exactly the letters `a` to `z` to `A` to `Z`.
#[verifier::external_body]
fn to_uppercase(s: &str) -> (r: String)
    ensures
        r@ == str_uppercase(s@),
        is_ascii(s@) ==> r@ == ascii_upper(s@),
{
    s.to_uppercase()
}

/// Calls `str::to_lowercase`. The contract names its result (Unicode's case
/// mapping, which it does not state) and says that on ASCII text it maps
/// exactly the letters `A` to `Z` to `a` to `z`.
#[verifier::external_body]
fn to_lowercase(s: &str) -> (r: String)
    ensures
        r@ == str_lowercase(s@),
        is_ascii(s@) ==> r@ == ascii_lower(s@),
{
    s.to_lowercase()
}

// ---------------------------------------------------------------------------
// Mnemonics
// ---------------------------------------------------------------------------

/// An instruction name of program text.
#[derive(Debug, Clone, Copy, PartialEq, Eq)]
pub enum Mnemonic {
    Push,
    Add,
    Sub,
    Mul,
    Div,
    Neg,
    Load,
    Store,
    Jmp,
    Jz,
    Jnz,
    Call,
    Ret,
    Lt,
    Gt,
    Eq,
    And,
    Or,
    Not,
    Dup,
    Pop,
    Swap,
    Print,
    Halt,
    VibeGet,
    VibeSet,
    Sense,
    Act,
}

/// The instruction that the upper-cased name `name` stands for, if any.
pub open spec fn mnemonic_of(name: Seq<char>) -> Option<Mnemonic> {
    if name == "PUSH"@ {
        Some(Mnemonic::Push)
    } else if name == "ADD"@ {
        Some(Mnemonic::Add)
    } else if name == "SUB"@ {
        Some(Mnemonic::Sub)
    } else if name == "MUL"@ {
        Some(Mnemonic::Mul)
    } else if name == "DIV"@ {
        Some(Mnemonic::Div)
    } else if name == "NEG"@ {
        Some(Mnemonic::Neg)
    } else if name == "LOAD"@ {
        Some(Mnemonic::Load)
    } else if name == "STORE"@ {
        Some(Mnemonic::Store)
    } else if name == "JMP"@ {
        Some(Mnemonic::Jmp)
    } else if name == "JZ"@ {
        Some(Mnemonic::Jz)
    } else if name == "JNZ"@ {
        Some(Mnemonic::Jnz)
    } else if name == "CALL"@ {
        Some(Mnemonic::Call)
    } else if name == "RET"@ {
        Some(Mnemonic::Ret)
    } else if name == "LT"@ {
        Some(Mnemonic::Lt)
    } else if name == "GT"@ {
        Some(Mnemonic::Gt)
    } else if name == "EQ"@ {
        Some(Mnemonic::Eq)
    } else if name == "AND"@ {
        Some(Mnemonic::And)
    } else if name == "OR"@ {
        Some(Mnemonic::Or)
    } else if name == "NOT"@ {
        Some(Mnemonic::Not)
    } else if name == "DUP"@ {
        Some(Mnemonic::Dup)
    } else if name == "POP"@ {
        Some(Mnemonic::Pop)
    } else if name == "SWAP"@ {
        Some(Mnemonic::Swap)
    } else if name == "PRINT"@ {
        Some(Mnemonic::Print)
    } else if name == "HALT"@ {
        Some(Mnemonic::Halt)
    } else if name == "VIBE_GET"@ {
        Some(Mnemonic::VibeGet)
    } else if name == "VIBE_SET"@ {
        Some(Mnemonic::VibeSet)
    } else if name == "SENSE"@ || name == "SENS"@ {
        Some(Mnemonic::Sense)
    } else if name == "ACT"@ {
        Some(Mnemonic::Act)
    } else {
        None
    }
}

/// The instruction that the upper-cased name `name` stands for (see [`mnemonic_of`]).
pub fn decode_mnemonic(name: &str) -> (r: Option<Mnemonic>)
    ensures
        r == mnemonic_of(name@),
{
    if text_is(name, "PUSH") {
        Some(Mnemonic::Push)
    } else if text_is(name, "ADD") {
        Some(Mnemonic::Add)
    } else if text_is(name, "SUB") {
        Some(Mnemonic::Sub)
    } else if text_is(name, "MUL") {
        Some(Mnemonic::Mul)
    } else if text_is(name, "DIV") {
        Some(Mnemonic::Div)
    } else if text_is(name, "NEG") {
        Some(Mnemonic::Neg)
    } else if text_is(name, "LOAD") {
        Some(Mnemonic::Load)
    } else if text_is(name, "STORE") {
        Some(Mnemonic::Store)
    } else if text_is(name, "JMP") {
        Some(Mnemonic::Jmp)
    } else if text_is(name, "JZ") {
        Some(Mnemonic::Jz)
    } else if text_is(name, "JNZ") {
        Some(Mnemonic::Jnz)
    } else if text_is(name, "CALL") {
        Some(Mnemonic::Call)
    } else if text_is(name, "RET") {
        Some(Mnemonic::Ret)
    } else if text_is(name, "LT") {
        Some(Mnemonic::Lt)
    } else if text_is(name, "GT") {
        Some(Mnemonic::Gt)
    } else if text_is(name, "EQ") {
        Some(Mnemonic::Eq)
    } else if text_is(name, "AND") {
        Some(Mnemonic::And)
    } else if text_is(name, "OR") {
        Some(Mnemonic::Or)
    } else if text_is(name, "NOT") {
        Some(Mnemonic::Not)
    } else if text_is(name, "DUP") {
        Some(Mnemonic::Dup)
    } else if text_is(name, "POP") {
        Some(Mnemonic::Pop)
    } else if text_is(name, "SWAP") {
        Some(Mnemonic::Swap)
    } else if text_is(name, "PRINT") {
        Some(Mnemonic::Print)
    } else if text_is(name, "HALT") {
        Some(Mnemonic::Halt)
    } else if text_is(name, "VIBE_GET") {
        Some(Mnemonic::VibeGet)
    } else if text_is(name, "VIBE_SET") {
        Some(Mnemonic::VibeSet)
    } else if text_is(name, "SENSE") || text_is(name, "SENS") {
        Some(Mnemonic::Sense)
    } else if text_is(name, "ACT") {
        Some(Mnemonic::Act)
    } else {
        None
    }
}

// ---------------------------------------------------------------------------
// Operands
// ---------------------------------------------------------------------------

/// `"line N: "` followed by `text`.
pub open spec fn line_message(line_no: u32, text: Seq<char>) -> Seq<char> {
    "line "@ + decimal(line_no as nat) + ": "@ + text
}

/// `s` in single quotes.
pub open spec fn quoted(s: Seq<char>) -> Seq<char> {
    "'"@ + s + "'"@
}

/// The characters of an optional operand.
pub open spec fn operand_view(opt: Option<&&str>) -> Option<Seq<char>> {
    match opt {
        Some(s) => Some(s@),
        None => None,
    }
}

/// An integer operand of at most `max` on line `line_no`, or the error for it.
pub open spec fn byte_operand(arg: Option<Seq<char>>, line_no: u32, max: u8) -> Result<u8, Seq<char>> {
    match arg {
        None => Err(line_message(line_no, "expected integer operand"@)),
        Some(s) => match u8_literal(s) {
            None => Err(line_message(line_no, "invalid integer "@ + quoted(s))),
            Some(v) => if v > max {
                Err(line_message(line_no, "value "@ + decimal(v as nat) + " exceeds max "@ + decimal(max as nat)))
            } else {
                Ok(v)
            },
        },
    }
}

/// A number operand on line `line_no` (its literal text), or the error for it.
pub open spec fn number_operand(arg: Option<Seq<char>>, line_no: u32) -> Result<Seq<char>, Seq<char>> {
    match arg {
        None => Err(line_message(line_no, "expected numeric operand"@)),
        Some(s) => if is_number_literal(s) {
            Ok(s)
        } else {
            Err(line_message(line_no, "invalid number "@ + quoted(s)))
        },
    }
}

fn line_text(line_no: u32, text: &str) -> (r: String)
    ensures
        r@ == line_message(line_no, text@),
{
    let mut s = String::from_str("line ");
    s.append(decimal_text(line_no as u64).as_str());
    s.append(": ");
    s.append(text);
    s
}

fn quoted_text(before: &str, s: &str) -> (r: String)
    ensures
        r@ == before@ + quoted(s@),
{
    let mut r = String::from_str(before);
    r.append("'");
    r.append(s);
    r.append("'");
    proof {
        assert(r@ =~= before@ + quoted(s@));
    }
    r
}

/// Reads an integer operand of at most `max` for line `line_no`.
pub fn parse_u8(opt: Option<&&str>, line_no: u32, max: u8) -> (r: Result<u8, String>)
    ensures
        match r {
            Ok(v) => byte_operand(operand_view(opt), line_no, max) == Ok::<u8, Seq<char>>(v),
            Err(e) => byte_operand(operand_view(opt), line_no, max) == Err::<u8, Seq<char>>(e@),
        },
{
    let s: &str = match opt {
        Some(s) => *s,
        None => return Err(line_text(line_no, "expected integer operand")),
    };
    match parse_u8_text(s) {
        None => {
            let text = quoted_text("invalid integer ", s);
            Err(line_text(line_no, text.as_str()))
        },
        Some(v) => {
            if v > max {
                let mut text = String::from_str("value ");
                text.append(decimal_text(v as u64).as_str());
                text.append(" exceeds max ");
                text.append(decimal_text(max as u64).as_str());
                Err(line_text(line_no, text.as_str()))
            } else {
                Ok(v)
            }
        },
    }
}

/// Reads a number operand for line `line_no`, giving back its literal text.
fn parse_number(opt: Option<&&str>, line_no: u32) -> (r: Result<String, String>)
    ensures
        match r {
            Ok(v) => number_operand(operand_view(opt), line_no) == Ok::<Seq<char>, Seq<char>>(v@),
            Err(e) => number_operand(operand_view(opt), line_no) == Err::<Seq<char>, Seq<char>>(e@),
        },
{
    let s: &str = match opt {
        Some(s) => *s,
        None => return Err(line_text(line_no, "expected numeric operand")),
    };
    if number_literal_ok(s) {
        Ok(String::from_str(s))
    } else {
        let text = quoted_text("invalid number ", s);
        Err(line_text(line_no, text.as_str()))
    }
}

// ---------------------------------------------------------------------------
// The assembly of program text
// ---------------------------------------------------------------------------

/// The lines of `s`: the pieces between line feeds (a trailing empty piece
/// included, which as an empty line assembles to nothing).
pub open spec fn lines_of(s: Seq<char>) -> Seq<Seq<char>>
    decreases s.len(),
{
    if s.len() == 0 {
        seq![Seq::empty()]
    } else {
        let p = lines_of(s.drop_last());
        if s.last() == '\n' {
            p.push(Seq::empty())
        } else {
            p.update(p.len() - 1, p.last().push(s.last()))
        }
    }
}

pub proof fn lemma_lines_of_nonempty(s: Seq<char>)
    ensures
        lines_of(s).len() >= 1,
    decreases s.len(),
{
    if s.len() > 0 {
        lemma_lines_of_nonempty(s.drop_last());
    }
}

/// A label reference that waits for its label: the instruction at `index`
/// (a `JMP`, `JZ`, `JNZ` or `CALL`, as `kind` says) names the label `name`.
pub struct LabelRef {
    pub index: nat,
    pub name: Seq<char>,
    pub kind: Mnemonic,
}

/// What the assembler holds after some lines: the instructions so far (a
/// `PUSH` holding its literal), the labels defined so far with their
/// instruction indices, and the label references to resolve.
#[verifier::ext_equal]
pub struct Assembly {
    pub program: Seq<Instruction<Seq<char>>>,
    pub labels: Seq<(Seq<char>, nat)>,
    pub refs: Seq<LabelRef>,
}

/// The index of the label `name` in `labels`, if it is defined.
pub open spec fn find_label(labels: Seq<(Seq<char>, nat)>, name: Seq<char>) -> Option<nat>
    decreases labels.len(),
{
    if labels.len() == 0 {
        None
    } else if labels[0].0 == name {
        Some(labels[0].1)
    } else {
        find_label(labels.drop_first(), name)
    }
}

/// `a` with `op` appended, from line `line_no`.
pub open spec fn emit(a: Assembly, op: Opcode<Seq<char>>, line_no: u32) -> Assembly {
    Assembly { program: a.program.push(Instruction { opcode: op, line: line_no }), ..a }
}

/// The instruction of a mnemonic that takes no operand.
pub open spec fn plain_opcode(m: Mnemonic) -> Opcode<Seq<char>> {
    match m {
        Mnemonic::Add => Opcode::Add,
        Mnemonic::Sub => Opcode::Sub,
        Mnemonic::Mul => Opcode::Mul,
        Mnemonic::Div => Opcode::Div,
        Mnemonic::Neg => Opcode::Neg,
        Mnemonic::Ret => Opcode::Ret,
        Mnemonic::Lt => Opcode::Lt,
        Mnemonic::Gt => Opcode::Gt,
        Mnemonic::Eq => Opcode::Eq,
        Mnemonic::And => Opcode::And,
        Mnemonic::Or => Opcode::Or,
        Mnemonic::Not => Opcode::Not,
        Mnemonic::Dup => Opcode::Dup,
        Mnemonic::Pop => Opcode::Pop,
        Mnemonic::Swap => Opcode::Swap,
        Mnemonic::Print => Opcode::Print,
        Mnemonic::VibeGet => Opcode::VibeGet,
        Mnemonic::VibeSet => Opcode::VibeSet,
        _ => Opcode::Halt,
    }
}

/// The `JMP`, `JZ`, `JNZ` (offset `o`) or `CALL` (target `o` truncated to a byte) of `m`.
pub open spec fn jump_opcode(m: Mnemonic, o: i16) -> Opcode<Seq<char>> {
    match m {
        Mnemonic::Jz => Opcode::Jz(o),
        Mnemonic::Jnz => Opcode::Jnz(o),
        Mnemonic::Call => Opcode::Call(#[verifier::truncate] (o as u8)),
        _ => Opcode::Jmp(o),
    }
}

/// `m` takes a jump target.
pub open spec fn is_jump(m: Mnemonic) -> bool {
    m is Jmp || m is Jz || m is Jnz || m is Call
}

/// Assembles the instruction `m` (written `upper`) with operand `arg` from line `line_no`.
pub open spec fn assemble_instruction(
    casing: Casing,
    a: Assembly,
    m: Mnemonic,
    upper: Seq<char>,
    arg: Option<Seq<char>>,
    line_no: u32,
) -> Result<Assembly, Seq<char>> {
    if m is Push {
        match number_operand(arg, line_no) {
            Ok(literal) => Ok(emit(a, Opcode::Push(literal), line_no)),
            Err(e) => Err(e),
        }
    } else if m is Load || m is Store {
        match byte_operand(arg, line_no, 15) {
            Ok(i) => Ok(emit(a, if m is Load { Opcode::Load(i) } else { Opcode::Store(i) }, line_no)),
            Err(e) => Err(e),
        }
    } else if m is Sense || m is Act {
        match byte_operand(arg, line_no, 7) {
            Ok(i) => Ok(emit(a, if m is Sense { Opcode::Sense(i) } else { Opcode::Act(i) }, line_no)),
            Err(e) => Err(e),
        }
    } else if is_jump(m) {
        match arg {
            None => Err(line_message(line_no, "missing operand for "@ + upper)),
            Some(x) => if x.len() > 0 && x[0] == '@' {
                Ok(
                    Assembly {
                        program: a.program.push(Instruction { opcode: jump_opcode(m, 0), line: line_no }),
                        refs: a.refs.push(
                            LabelRef { index: a.program.len(), name: lower_in(casing, x.drop_first()), kind: m },
                        ),
                        ..a
                    },
                )
            } else {
                match i16_literal(x) {
                    None => Err(
                        line_message(line_no, "invalid operand "@ + quoted(x) + " for "@ + upper),
                    ),
                    Some(o) => Ok(emit(a, jump_opcode(m, o), line_no)),
                }
            },
        }
    } else {
        Ok(emit(a, plain_opcode(m), line_no))
    }
}

/// The operand of the trimmed instruction line `t`: its second word, if any.
pub open spec fn operand_of(t: Seq<char>) -> Option<Seq<char>> {
    let rest = trim_start(t.skip(word_len(t) as int));
    if rest.len() == 0 {
        None
    } else {
        Some(rest.take(word_len(rest) as int))
    }
}

/// Assembles line number `line_no`, with text `line`.
pub open spec fn assemble_line(casing: Casing, a: Assembly, line: Seq<char>, line_no: u32) -> Result<Assembly, Seq<char>> {
    let t = trim(line);
    if t.len() == 0 || t[0] == '#' || t[0] == ';' {
        Ok(a)
    } else if t.last() == ':' {
        let name = lower_in(casing, trim(t.drop_last()));
        if find_label(a.labels, name) is Some {
            Err(line_message(line_no, "duplicate label "@ + quoted(name)))
        } else {
            Ok(Assembly { labels: a.labels.push((name, a.program.len())), ..a })
        }
    } else {
        let upper = upper_in(casing, t.take(word_len(t) as int));
        match mnemonic_of(upper) {
            None => Err(line_message(line_no, "unknown opcode "@ + quoted(upper))),
            Some(m) => assemble_instruction(casing, a, m, upper, operand_of(t), line_no),
        }
    }
}

/// Assembles `lines`, numbering them from 1, up to the first error.
pub open spec fn assemble_lines(casing: Casing, lines: Seq<Seq<char>>) -> Result<Assembly, Seq<char>>
    decreases lines.len(),
{
    if lines.len() == 0 {
        Ok(Assembly { program: Seq::empty(), labels: Seq::empty(), refs: Seq::empty() })
    } else {
        match assemble_lines(casing, lines.drop_last()) {
            Err(e) => Err(e),
            Ok(a) => assemble_line(casing, a, lines.last(), #[verifier::truncate] (lines.len() as u32)),
        }
    }
}

/// `x` wrapped into the range of `i16`, as `i16::wrapping_sub` wraps.
pub open spec fn wrap_i16(x: int) -> i16 {
    if x > i16::MAX {
        (x - 65536) as i16
    } else if x < i16::MIN {
        (x + 65536) as i16
    } else {
        x as i16
    }
}

/// The offset of a jump at `index` to `target`, in 16-bit arithmetic.
pub open spec fn relative(target: nat, index: nat) -> i16 {
    wrap_i16((#[verifier::truncate] (target as i16)) as int - (#[verifier::truncate] (index as i16)) as int)
}

/// In a program of fewer than 32768 instructions, the offset assembled for a
/// jump at `index` to a label at `target` is `target - index`, and the jump
/// lands on the label.
pub proof fn lemma_relative_jump_lands(target: nat, index: nat)
    requires
        target < 32768,
        index < 32768,
    ensures
        relative(target, index) as int == target - index,
        crate::vm::jump_target(index as usize, relative(target, index)) == target,
{
}

/// Resolves the reference `r` in `p` against `labels`; an error names the
/// line of the referring instruction.
pub open spec fn resolve_ref(
    p: Seq<Instruction<Seq<char>>>,
    labels: Seq<(Seq<char>, nat)>,
    r: LabelRef,
) -> Result<Seq<Instruction<Seq<char>>>, Seq<char>> {
    match find_label(labels, r.name) {
        None => Err(line_message(p[r.index as int].line, "undefined label '@"@ + r.name + "'"@)),
        Some(t) => if r.kind is Call {
            if t > 255 {
                Err(line_message(p[r.index as int].line, "CALL target "@ + decimal(t) + " exceeds u8 range"@))
            } else {
                Ok(p.update(r.index as int, Instruction { opcode: Opcode::Call(t as u8), line: p[r.index as int].line }))
            }
        } else {
            Ok(
                p.update(
                    r.index as int,
                    Instruction { opcode: jump_opcode(r.kind, relative(t, r.index)), line: p[r.index as int].line },
                ),
            )
        },
    }
}

/// Resolving a reference to a defined label changes only the referring
/// instruction, keeping its line: a `CALL` gets the label's index as its
/// target (if it fits a byte), and a `JMP`, `JZ` or `JNZ` gets the offset
/// that, in a program of fewer than 32768 instructions, lands on the label.
/// A reference to a label that is not defined fails.
pub proof fn lemma_resolve_ref_lands(
    p: Seq<Instruction<Seq<char>>>,
    labels: Seq<(Seq<char>, nat)>,
    r: LabelRef,
)
    requires
        r.index < p.len(),
    ensures
        find_label(labels, r.name) is None ==> resolve_ref(p, labels, r) is Err,
        find_label(labels, r.name) matches Some(t) ==> {
            &&& r.kind is Call && t > 255 ==> resolve_ref(p, labels, r) is Err
            &&& !(r.kind is Call && t > 255) ==> {
                let q = resolve_ref(p, labels, r)->Ok_0;
                &&& resolve_ref(p, labels, r) is Ok
                &&& q.len() == p.len()
                &&& forall|j: int| 0 <= j < p.len() && j != r.index ==> #[trigger] q[j] == p[j]
                &&& q[r.index as int].line == p[r.index as int].line
                &&& r.kind is Call ==> q[r.index as int].opcode == Opcode::<Seq<char>>::Call(t as u8) && t == (t as u8)
                &&& (r.kind is Jmp || r.kind is Jz || r.kind is Jnz) && t < 32768 && r.index < 32768 ==> {
                    let o = relative(t, r.index);
                    &&& r.kind is Jmp ==> q[r.index as int].opcode == Opcode::<Seq<char>>::Jmp(o)
                    &&& r.kind is Jz ==> q[r.index as int].opcode == Opcode::<Seq<char>>::Jz(o)
                    &&& r.kind is Jnz ==> q[r.index as int].opcode == Opcode::<Seq<char>>::Jnz(o)
                    &&& o as int == t - r.index
                    &&& crate::vm::jump_target(r.index as usize, o) == t
                }
            }
        },
{
    if let Some(t) = find_label(labels, r.name) {
        if t < 32768 && r.index < 32768 {
            lemma_relative_jump_lands(t, r.index);
        }
    }
}

/// Resolves `refs` in order, up to the first error.
pub open spec fn resolve_refs(
    p: Seq<Instruction<Seq<char>>>,
    labels: Seq<(Seq<char>, nat)>,
    refs: Seq<LabelRef>,
) -> Result<Seq<Instruction<Seq<char>>>, Seq<char>>
    decreases refs.len(),
{
    if refs.len() == 0 {
        Ok(p)
    } else {
        match resolve_ref(p, labels, refs[0]) {
            Err(e) => Err(e),
            Ok(q) => resolve_refs(q, labels, refs.drop_first()),
        }
    }
}

/// The program that the text `src` assembles to, or the first error, with
/// mnemonics and label names changing case as `casing` says.
pub open spec fn compile_text(casing: Casing, src: Seq<char>) -> Result<Seq<Instruction<Seq<char>>>, Seq<char>> {
    match assemble_lines(casing, lines_of(src)) {
        Err(e) => Err(e),
        Ok(a) => resolve_refs(a.program, a.labels, a.refs),
    }
}

/// `e` is a message about one of `count` lines, counted from 1 (when the
/// numbers fit in a `u32`).
pub open spec fn names_line(e: Seq<char>, count: nat) -> bool {
    exists|line_no: u32, text: Seq<char>|
        #[trigger] line_message(line_no, text) == e && (count <= u32::MAX ==> 1 <= line_no <= count)
}

/// Every line number of `p` is that of one of `count` lines, counted from 1
/// (when the numbers fit in a `u32`).
pub open spec fn lines_within(p: Seq<Instruction<Seq<char>>>, count: nat) -> bool {
    count <= u32::MAX ==> forall|i: int| 0 <= i < p.len() ==> 1 <= #[trigger] p[i].line <= count
}

/// Every error found while reading the lines names the line it was found on;
/// an assembly of the lines refers only to its own instructions, each
/// numbered with one of the lines.
pub proof fn lemma_assembled_lines(casing: Casing, lines: Seq<Seq<char>>)
    ensures
        assemble_lines(casing, lines) matches Err(e) ==> names_line(e, lines.len()),
        assemble_lines(casing, lines) matches Ok(a) ==> refs_in_program(a) && lines_within(a.program, lines.len()),
    decreases lines.len(),
{
    if lines.len() > 0 {
        lemma_assembled_lines(casing, lines.drop_last());
        let k = lines.len() as int;
        let line_no = #[verifier::truncate] (k as u32);
        if let Ok(a) = assemble_lines(casing, lines.drop_last()) {
            match assemble_line(casing, a, lines.last(), line_no) {
                Err(e) => {
                    let text = e.skip(("line "@ + decimal(line_no as nat) + ": "@).len() as int);
                    assert(e == line_message(line_no, text));
                },
                Ok(b) => {
                    assert forall|j: int| 0 <= j < b.refs.len() implies #[trigger] b.refs[j].index < b.program.len() by {
                        if j < a.refs.len() {
                            assert(b.refs[j] == a.refs[j]);
                        }
                    }
                    if k <= u32::MAX {
                        assert forall|i: int| 0 <= i < b.program.len() implies 1 <= #[trigger] b.program[i].line <= k by {
                            if i < a.program.len() {
                                assert(b.program[i] == a.program[i]);
                            }
                        }
                    }
                },
            }
        }
    }
}

/// Every error found while resolving label references names the line of the
/// referring instruction.
proof fn lemma_label_errors(
    p: Seq<Instruction<Seq<char>>>,
    labels: Seq<(Seq<char>, nat)>,
    refs: Seq<LabelRef>,
    count: nat,
)
    requires
        forall|k: int| 0 <= k < refs.len() ==> #[trigger] refs[k].index < p.len(),
        lines_within(p, count),
    ensures
        resolve_refs(p, labels, refs) matches Err(e) ==> names_line(e, count),
    decreases refs.len(),
{
    if refs.len() > 0 {
        let r = refs[0];
        let line_no = p[r.index as int].line;
        assert(refs[0].index < p.len());
        match resolve_ref(p, labels, r) {
            Ok(q) => {
                assert forall|k: int| 0 <= k < refs.drop_first().len() implies #[trigger] refs.drop_first()[k].index
                    < q.len() by {
                    assert(refs.drop_first()[k] == refs[k + 1]);
                }
                if count <= u32::MAX {
                    assert forall|i: int| 0 <= i < q.len() implies 1 <= #[trigger] q[i].line <= count by {
                        assert(q[i].line == p[i].line);
                    }
                }
                lemma_label_errors(q, labels, refs.drop_first(), count);
            },
            Err(e) => {
                let text = e.skip(("line "@ + decimal(line_no as nat) + ": "@).len() as int);
                assert(e == line_message(line_no, text));
            },
        }
    }
}

/// Every error in assembling program text names the line it is about
/// (`line N: ...`): the line that fails to read, or the line of the
/// instruction whose label reference cannot be resolved.
pub proof fn lemma_compile_errors(casing: Casing, src: Seq<char>)
    ensures
        compile_text(casing, src) matches Err(e) ==> names_line(e, lines_of(src).len()),
{
    lemma_assembled_lines(casing, lines_of(src));
    if let Ok(a) = assemble_lines(casing, lines_of(src)) {
        lemma_label_errors(a.program, a.labels, a.refs, lines_of(src).len());
    }
}

/// `op` with its `PUSH` literal as a sequence of characters.
pub open spec fn opcode_view(op: Opcode<String>) -> Opcode<Seq<char>> {
    match op {
        Opcode::Push(s) => Opcode::Push(s@),
        _ => op.with_constant(Seq::empty()),
    }
}

/// `p` with its `PUSH` literals as sequences of characters.
pub open spec fn program_view(p: Seq<Instruction<String>>) -> Seq<Instruction<Seq<char>>> {
    p.map_values(|i: Instruction<String>| Instruction { opcode: opcode_view(i.opcode), line: i.line })
}

// ---------------------------------------------------------------------------
// The assembler
// ---------------------------------------------------------------------------

struct Assembler {
    program: Vec<Instruction<String>>,
    labels: Vec<(String, usize)>,
    refs: Vec<(usize, String, Mnemonic)>,
}

pub open spec fn labels_view(labels: Seq<(String, usize)>) -> Seq<(Seq<char>, nat)> {
    labels.map_values(|l: (String, usize)| (l.0@, l.1 as nat))
}

pub open spec fn refs_view(refs: Seq<(usize, String, Mnemonic)>) -> Seq<LabelRef> {
    refs.map_values(|r: (usize, String, Mnemonic)| LabelRef { index: r.0 as nat, name: r.1@, kind: r.2 })
}

impl View for Assembler {
    type V = Assembly;

    closed spec fn view(&self) -> Assembly {
        Assembly {
            program: program_view(self.program@),
            labels: labels_view(self.labels@),
            refs: refs_view(self.refs@),
        }
    }
}

/// Every label reference points at an instruction.
pub open spec fn refs_in_program(a: Assembly) -> bool {
    forall|k: int| 0 <= k < a.refs.len() ==> #[trigger] a.refs[k].index < a.program.len()
}

/// Where the white space starting at `from` ends, before `to`.
fn skip_space(chars: &Vec<char>, from: usize, to: usize) -> (r: usize)
    requires
        from <= to <= chars@.len(),
    ensures
        from <= r <= to,
        r - from == leading_space(chars@.subrange(from as int, to as int)),
{
    let mut i = from;
    while i < to && char_is_space(chars[i])
        invariant
            from <= i <= to <= chars@.len(),
            forall|j: int| from <= j < i ==> is_space(#[trigger] chars@[j]),
        decreases to - i,
    {
        i = i + 1;
    }
    proof {
        let t = chars@.subrange(from as int, to as int);
        assert forall|j: int| 0 <= j < i - from implies is_space(#[trigger] t[j]) by {
            assert(t[j] == chars@[from + j]);
        }
        if i < to {
            assert(t[i - from] == chars@[i as int]);
        }
        lemma_leading_space(t, i - from);
    }
    i
}

/// Where the word starting at `from` ends, before `to`.
fn skip_word(chars: &Vec<char>, from: usize, to: usize) -> (r: usize)
    requires
        from <= to <= chars@.len(),
    ensures
        from <= r <= to,
        r - from == word_len(chars@.subrange(from as int, to as int)),
{
    let mut i = from;
    while i < to && !char_is_space(chars[i])
        invariant
            from <= i <= to <= chars@.len(),
            forall|j: int| from <= j < i ==> !is_space(#[trigger] chars@[j]),
        decreases to - i,
    {
        i = i + 1;
    }
    proof {
        let t = chars@.subrange(from as int, to as int);
        assert forall|j: int| 0 <= j < i - from implies !is_space(#[trigger] t[j]) by {
            assert(t[j] == chars@[from + j]);
        }
        if i < to {
            assert(t[i - from] == chars@[i as int]);
        }
        lemma_word_len(t, i - from);
    }
    i
}

/// The bounds of `chars[from..to]` trimmed.
fn trim_bounds(chars: &Vec<char>, from: usize, to: usize) -> (r: (usize, usize))
    requires
        from <= to <= chars@.len(),
    ensures
        from <= r.0 <= r.1 <= to,
        trim(chars@.subrange(from as int, to as int)) == chars@.subrange(r.0 as int, r.1 as int),
{
    let a = skip_space(chars, from, to);
    let mut b = to;
    while b > a && char_is_space(chars[b - 1])
        invariant
            from <= a <= b <= to <= chars@.len(),
            forall|j: int| b <= j < to ==> is_space(#[trigger] chars@[j]),
        decreases b - a,
    {
        b = b - 1;
    }
    proof {
        let line = chars@.subrange(from as int, to as int);
        let t = trim_start(line);
        assert(t =~= chars@.subrange(a as int, to as int));
        assert forall|j: int| b - a <= j < t.len() implies is_space(#[trigger] t[j]) by {
            assert(t[j] == chars@[a + j]);
        }
        if b > a {
            assert(t[b - a - 1] == chars@[b - 1]);
        }
        lemma_trailing_space(t, b - a);
        assert(t.take(t.len() - trailing_space(t)) =~= chars@.subrange(a as int, b as int));
    }
    (a, b)
}

impl Assembler {
    fn new() -> (r: Self)
        ensures
            r@ == (Assembly { program: Seq::empty(), labels: Seq::empty(), refs: Seq::empty() }),
            refs_in_program(r@),
    {
        let r = Assembler { program: Vec::new(), labels: Vec::new(), refs: Vec::new() };
        assert(r@ =~= (Assembly { program: Seq::empty(), labels: Seq::empty(), refs: Seq::empty() }));
        r
    }

    /// The index of the label `name`, if defined.
    fn find_label(&self, name: &String) -> (r: Option<usize>)
        ensures
            match r {
                Some(t) => find_label(self@.labels, name@) == Some(t as nat),
                None => find_label(self@.labels, name@) is None,
            },
    {
        let ghost all = self@.labels;
        assert(all.skip(0) =~= all);
        let mut j: usize = 0;
        while j < self.labels.len()
            invariant
                0 <= j <= self.labels@.len(),
                all == self@.labels,
                all.len() == self.labels@.len(),
                find_label(all, name@) == find_label(all.skip(j as int), name@),
            decreases self.labels@.len() - j,
        {
            assert(all.skip(j as int)[0] == all[j as int]);
            if self.labels[j].0 == *name {
                return Some(self.labels[j].1);
            }
            assert(all.skip(j as int).drop_first() =~= all.skip(j + 1));
            j = j + 1;
        }
        None
    }

    fn emit(&mut self, op: Opcode<String>, line_no: u32)
        requires
            refs_in_program(old(self)@),
        ensures
            final(self)@ == emit(old(self)@, opcode_view(op), line_no),
            refs_in_program(final(self)@),
    {
        self.program.push(Instruction::new(op, line_no));
        assert(self@ =~= emit(old(self)@, opcode_view(op), line_no));
    }

    /// Assembles the line `chars[from..to]`, number `line_no`.
    fn assemble_line(&mut self, source: &str, chars: &Vec<char>, from: usize, to: usize, line_no: u32) -> (r: Result<(), String>)
        requires
            chars@ == source@,
            from <= to <= chars@.len(),
            refs_in_program(old(self)@),
        ensures
            match r {
                Ok(_) => assemble_line(Casing::Std, old(self)@, chars@.subrange(from as int, to as int), line_no) matches Ok(a)
                    && a == final(self)@,
                Err(e) => assemble_line(Casing::Std, old(self)@, chars@.subrange(from as int, to as int), line_no)
                    == Err::<Assembly, Seq<char>>(e@),
            },
            is_ascii(chars@) ==> assemble_line(Casing::Ascii, old(self)@, chars@.subrange(from as int, to as int), line_no)
                == assemble_line(Casing::Std, old(self)@, chars@.subrange(from as int, to as int), line_no),
            refs_in_program(final(self)@),
    {
        let (a, b) = trim_bounds(chars, from, to);
        let ghost t = chars@.subrange(a as int, b as int);
        if a == b || chars[a] == '#' || chars[a] == ';' {
            return Ok(());
        }
        if chars[b - 1] == ':' {
            let (a2, b2) = trim_bounds(chars, a, b - 1);
            assert(t.drop_last() =~= chars@.subrange(a as int, b - 1));
            let name = to_lowercase(source.substring_char(a2, b2));
            if self.find_label(&name).is_some() {
                let text = quoted_text("duplicate label ", name.as_str());
                return Err(line_text(line_no, text.as_str()));
            }
            let at = self.program.len();
            self.labels.push((name, at));
            assert(self@ =~= Assembly { labels: old(self)@.labels.push((name@, at as nat)), ..old(self)@ });
            return Ok(());
        }
        let w = skip_word(chars, a, b);
        assert(t.take(word_len(t) as int) =~= chars@.subrange(a as int, w as int));
        let upper = to_uppercase(source.substring_char(a, w));
        let c = skip_space(chars, w, b);
        assert(t.skip(word_len(t) as int) =~= chars@.subrange(w as int, b as int));
        assert(trim_start(t.skip(word_len(t) as int)) =~= chars@.subrange(c as int, b as int));
        let arg: Option<&str> = if c == b {
            None
        } else {
            let d = skip_word(chars, c, b);
            assert(chars@.subrange(c as int, b as int).take(d - c) =~= chars@.subrange(c as int, d as int));
            Some(source.substring_char(c, d))
        };
        assert(operand_of(t) == match arg { Some(x) => Some(x@), None => None::<Seq<char>> });
        let m = match decode_mnemonic(upper.as_str()) {
            Some(m) => m,
            None => {
                let text = quoted_text("unknown opcode ", upper.as_str());
                return Err(line_text(line_no, text.as_str()));
            },
        };
        self.assemble_instruction(m, upper.as_str(), arg, line_no)
    }

    /// Assembles the instruction `m` (written `upper`) with operand `arg`.
    fn assemble_instruction(&mut self, m: Mnemonic, upper: &str, arg: Option<&str>, line_no: u32) -> (r: Result<(), String>)
        requires
            refs_in_program(old(self)@),
        ensures
            ({
                let spec_arg = match arg { Some(x) => Some(x@), None => None::<Seq<char>> };
                match r {
                    Ok(_) => assemble_instruction(Casing::Std, old(self)@, m, upper@, spec_arg, line_no) matches Ok(a)
                        && a == final(self)@,
                    Err(e) => assemble_instruction(Casing::Std, old(self)@, m, upper@, spec_arg, line_no)
                        == Err::<Assembly, Seq<char>>(e@),
                }
            }),
            (arg matches Some(x) ==> is_ascii(x@)) ==> assemble_instruction(
                Casing::Ascii,
                old(self)@,
                m,
                upper@,
                match arg { Some(x) => Some(x@), None => None::<Seq<char>> },
                line_no,
            ) == assemble_instruction(
                Casing::Std,
                old(self)@,
                m,
                upper@,
                match arg { Some(x) => Some(x@), None => None::<Seq<char>> },
                line_no,
            ),
            refs_in_program(final(self)@),
    {
        let opt: Option<&&str> = match &arg {
            Some(x) => Some(x),
            None => None,
        };
        assert(operand_view(opt) == match arg { Some(x) => Some(x@), None => None::<Seq<char>> });
        match m {
            Mnemonic::Push => {
                let literal = parse_number(opt, line_no)?;
                self.emit(Opcode::Push(literal), line_no);
                Ok(())
            },
            Mnemonic::Load | Mnemonic::Store => {
                let i = parse_u8(opt, line_no, 15)?;
                self.emit(if let Mnemonic::Load = m { Opcode::Load(i) } else { Opcode::Store(i) }, line_no);
                Ok(())
            },
            Mnemonic::Sense | Mnemonic::Act => {
                let i = parse_u8(opt, line_no, 7)?;
                self.emit(if let Mnemonic::Sense = m { Opcode::Sense(i) } else { Opcode::Act(i) }, line_no);
                Ok(())
            },
            Mnemonic::Jmp | Mnemonic::Jz | Mnemonic::Jnz | Mnemonic::Call => {
                let x: &str = match arg {
                    Some(x) => x,
                    None => {
                        let mut text = String::from_str("missing operand for ");
                        text.append(upper);
                        return Err(line_text(line_no, text.as_str()));
                    },
                };
                let n = x.unicode_len();
                if n > 0 && x.get_char(0) == '@' {
                    let label = to_lowercase(x.substring_char(1, n));
                    assert(x@.subrange(1, n as int) =~= x@.drop_first());
                    let at = self.program.len();
                    self.program.push(Instruction::new(jump_op(m, 0), line_no));
                    self.refs.push((at, label, m));
                    proof {
                        let expected = Assembly {
                            program: old(self)@.program.push(Instruction { opcode: jump_opcode(m, 0), line: line_no }),
                            refs: old(self)@.refs.push(LabelRef { index: at as nat, name: label@, kind: m }),
                            ..old(self)@
                        };
                        assert(self@ =~= expected);
                    }
                    return Ok(());
                }
                match parse_i16_text(x) {
                    None => {
                        let mut text = quoted_text("invalid operand ", x);
                        text.append(" for ");
                        text.append(upper);
                        Err(line_text(line_no, text.as_str()))
                    },
                    Some(o) => {
                        self.emit(jump_op(m, o), line_no);
                        Ok(())
                    },
                }
            },
            _ => {
                self.emit(plain_op(m), line_no);
                Ok(())
            },
        }
    }

    /// Resolves the label references, in order.
    fn resolve(self) -> (r: Result<Bytecode<String>, String>)
        requires
            refs_in_program(self@),
        ensures
            match r {
                Ok(bc) => resolve_refs(self@.program, self@.labels, self@.refs) matches Ok(p) && p
                    == program_view(bc@),
                Err(e) => resolve_refs(self@.program, self@.labels, self@.refs) == Err::<
                    Seq<Instruction<Seq<char>>>,
                    Seq<char>,
                >(e@),
            },
    {
        let ghost a = self@;
        let Assembler { program, labels, refs } = self;
        let lookup = Assembler { program: Vec::new(), labels, refs: Vec::new() };
        let mut program = program;
        let mut k: usize = 0;
        assert(a.refs.skip(0) =~= a.refs);
        assert(program_view(program@) == a.program);
        while k < refs.len()
            invariant
                0 <= k <= refs@.len(),
                a == self@,
                a.refs == refs_view(refs@),
                a.labels == lookup@.labels,
                program@.len() == a.program.len(),
                refs_in_program(a),
                resolve_refs(a.program, a.labels, a.refs) == resolve_refs(
                    program_view(program@),
                    a.labels,
                    a.refs.skip(k as int),
                ),
            decreases refs@.len() - k,
        {
            let ghost rest = a.refs.skip(k as int);
            assert(rest[0] == a.refs[k as int]);
            assert(rest.drop_first() =~= a.refs.skip(k + 1));
            let idx = refs[k].0;
            let kind = refs[k].2;
            assert(a.refs[k as int] == LabelRef { index: idx as nat, name: refs@[k as int].1@, kind });
            assert(a.refs[k as int].index < a.program.len());
            let line = program[idx].line;
            assert(program_view(program@)[idx as int].line == line);
            match lookup.find_label(&refs[k].1) {
                None => {
                    let mut text = String::from_str("undefined label '@");
                    text.append(refs[k].1.as_str());
                    text.append("'");
                    let e = line_text(line, text.as_str());
                    proof {
                        assert(text@ =~= "undefined label '@"@ + rest[0].name + "'"@);
                        assert(resolve_ref(program_view(program@), a.labels, rest[0]) == Err::<
                            Seq<Instruction<Seq<char>>>,
                            Seq<char>,
                        >(e@));
                    }
                    return Err(e);
                },
                Some(t) => {
                    let op = if let Mnemonic::Call = kind {
                        if t > 255 {
                            let mut text = String::from_str("CALL target ");
                            text.append(decimal_text(t as u64).as_str());
                            text.append(" exceeds u8 range");
                            let e = line_text(line, text.as_str());
                            proof {
                                assert(text@ =~= "CALL target "@ + decimal(t as nat) + " exceeds u8 range"@);
                                assert(resolve_ref(program_view(program@), a.labels, rest[0]) == Err::<
                                    Seq<Instruction<Seq<char>>>,
                                    Seq<char>,
                                >(e@));
                            }
                            return Err(e);
                        }
                        Opcode::Call(t as u8)
                    } else {
                        jump_op(kind, (#[verifier::truncate] (t as i16)).wrapping_sub(#[verifier::truncate] (idx as i16)))
                    };
                    let ghost before = program@;
                    program[idx] = Instruction::new(op, line);
                    assert(program_view(program@) =~= program_view(before).update(
                        idx as int,
                        Instruction { opcode: opcode_view(op), line },
                    ));
                },
            }
            k = k + 1;
        }
        assert(a.refs.skip(k as int).len() == 0);
        Ok(Bytecode { instructions: program })
    }
}

/// The `JMP`, `JZ`, `JNZ` or `CALL` of `m` (see [`jump_opcode`]).
fn jump_op(m: Mnemonic, o: i16) -> (r: Opcode<String>)
    ensures
        opcode_view(r) == jump_opcode(m, o),
{
    match m {
        Mnemonic::Jz => Opcode::Jz(o),
        Mnemonic::Jnz => Opcode::Jnz(o),
        Mnemonic::Call => Opcode::Call(o as u8),
        _ => Opcode::Jmp(o),
    }
}

/// The instruction of a mnemonic without operand (see [`plain_opcode`]).
fn plain_op(m: Mnemonic) -> (r: Opcode<String>)
    ensures
        opcode_view(r) == plain_opcode(m),
{
    match m {
        Mnemonic::Add => Opcode::Add,
        Mnemonic::Sub => Opcode::Sub,
        Mnemonic::Mul => Opcode::Mul,
        Mnemonic::Div => Opcode::Div,
        Mnemonic::Neg => Opcode::Neg,
        Mnemonic::Ret => Opcode::Ret,
        Mnemonic::Lt => Opcode::Lt,
        Mnemonic::Gt => Opcode::Gt,
        Mnemonic::Eq => Opcode::Eq,
        Mnemonic::And => Opcode::And,
        Mnemonic::Or => Opcode::Or,
        Mnemonic::Not => Opcode::Not,
        Mnemonic::Dup => Opcode::Dup,
        Mnemonic::Pop => Opcode::Pop,
        Mnemonic::Swap => Opcode::Swap,
        Mnemonic::Print => Opcode::Print,
        Mnemonic::VibeGet => Opcode::VibeGet,
        Mnemonic::VibeSet => Opcode::VibeSet,
        _ => Opcode::Halt,
    }
}

/// The number of the line that follows `count` lines, truncated to 32 bits
/// as line numbers are.
fn next_line_no(count: usize) -> (r: u32)
    ensures
        r == #[verifier::truncate] ((count + 1) as u32),
{
    let c: u32 = #[verifier::truncate] (count as u32);
    let r: u32 = if c == u32::MAX {
        0
    } else {
        c + 1
    };
    assert(r == #[verifier::truncate] ((count + 1) as u32)) by (bit_vector)
        requires
            c == #[verifier::truncate] (count as u32),
            r == (if c == 0xffff_ffffu32 { 0u32 } else { (c + 1) as u32 }),
    ;
    r
}

/// The characters of `s`.
fn chars_of(s: &str) -> (r: Vec<char>)
    ensures
        r@ == s@,
{
    let n = s.unicode_len();
    let mut v: Vec<char> = Vec::new();
    for i in 0..n
        invariant
            n == s@.len(),
            v@ == s@.take(i as int),
    {
        v.push(s.get_char(i));
        assert(v@ =~= s@.take(i + 1));
    }
    assert(s@.take(n as int) =~= s@);
    v
}

/// The assembler (see the module documentation).
#[derive(Debug, Clone)]
pub struct Compiler;

impl Compiler {
    /// Assembles `source` into a program whose `PUSH` instructions hold their
    /// literal text, or gives the first error: the first line that fails, in
    /// order, else the first label reference that fails, in order.
    pub fn compile(source: &str) -> (r: Result<Bytecode<String>, String>)
        ensures
            match r {
                Ok(bc) => compile_text(Casing::Std, source@) matches Ok(p) && p == program_view(bc@),
                Err(e) => compile_text(Casing::Std, source@) == Err::<Seq<Instruction<Seq<char>>>, Seq<char>>(e@),
            },
            is_ascii(source@) ==> compile_text(Casing::Ascii, source@) == compile_text(Casing::Std, source@),
    {
        let chars = chars_of(source);
        let n = chars.len();
        let mut assembler = Assembler::new();
        let mut failure: Option<String> = None;
        let ghost mut done: Seq<Seq<char>> = Seq::empty();
        let mut count: usize = 0;
        let mut start: usize = 0;
        let mut i: usize = 0;
        assert(chars@.take(0) =~= Seq::<char>::empty());
        assert(chars@.subrange(0, 0) =~= Seq::<char>::empty());
        while i < n
            invariant
                chars@ == source@,
                n == chars@.len(),
                start <= i <= n,
                count == done.len(),
                count <= i,
                lines_of(chars@.take(i as int)) == done.push(chars@.subrange(start as int, i as int)),
                refs_in_program(assembler@),
                match failure {
                    Some(e) => assemble_lines(Casing::Std, done) == Err::<Assembly, Seq<char>>(e@),
                    None => assemble_lines(Casing::Std, done) matches Ok(a) && a == assembler@,
                },
                is_ascii(source@) ==> assemble_lines(Casing::Ascii, done) == assemble_lines(Casing::Std, done),
            decreases n - i,
        {
            let ghost cur = chars@.subrange(start as int, i as int);
            assert(chars@.take(i + 1).drop_last() =~= chars@.take(i as int));
            if chars[i] == '\n' {
                if failure.is_none() {
                    let line_no = next_line_no(count);
                    match assembler.assemble_line(source, &chars, start, i, line_no) {
                        Ok(_) => {},
                        Err(e) => failure = Some(e),
                    }
                }
                proof {
                    assert(done.push(cur).drop_last() =~= done);
                    done = done.push(cur);
                    assert(chars@.subrange(i + 1, i + 1) =~= Seq::<char>::empty());
                }
                count = count + 1;
                start = i + 1;
            } else {
                assert(cur.push(chars@[i as int]) =~= chars@.subrange(start as int, i + 1));
                assert(done.push(cur).update(done.len() as int, cur.push(chars@[i as int])) =~= done.push(
                    chars@.subrange(start as int, i + 1),
                ));
            }
            i = i + 1;
        }
        let ghost last = chars@.subrange(start as int, n as int);
        assert(chars@.take(n as int) =~= chars@);
        if failure.is_none() {
            let line_no = next_line_no(count);
            match assembler.assemble_line(source, &chars, start, n, line_no) {
                Ok(_) => {},
                Err(e) => failure = Some(e),
            }
        }
        assert(done.push(last).drop_last() =~= done);
        match failure {
            Some(e) => Err(e),
            None => assembler.resolve(),
        }
    }
}

} // verus!
