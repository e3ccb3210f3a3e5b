//! The text of an instruction, as a listing shows it, assembles back to the
//! instruction.

use vstd::prelude::*;

use crate::compiler::{
    assemble_instruction, assemble_line, assemble_lines, compile_text, emit, lines_of, mnemonic_of,
    operand_of, resolve_refs, Assembly, Casing, Mnemonic,
};
use crate::program::{Instruction, Opcode};
use crate::text::{
    all_digits, ascii_lower_char, ascii_upper, decimal, digit_char, digit_run, digits_value,
    i16_literal, is_ascii_letter, is_decimal_number, is_digit, is_exponent, is_number_literal,
    is_space, is_word_ignoring_case, lemma_leading_space, lemma_run_bounds, lemma_trailing_space,
    lemma_word_len, signed_decimal, trim, trim_start, u8_literal, word_len,
};

verus! {

/// The mnemonic the assembler reads for the name of `op`.
spec fn mnemonic_for<V>(op: Opcode<V>) -> Mnemonic {
    match op {
        Opcode::Push(_) => Mnemonic::Push,
        Opcode::Dup => Mnemonic::Dup,
        Opcode::Pop => Mnemonic::Pop,
        Opcode::Swap => Mnemonic::Swap,
        Opcode::Add => Mnemonic::Add,
        Opcode::Sub => Mnemonic::Sub,
        Opcode::Mul => Mnemonic::Mul,
        Opcode::Div => Mnemonic::Div,
        Opcode::Neg => Mnemonic::Neg,
        Opcode::Load(_) => Mnemonic::Load,
        Opcode::Store(_) => Mnemonic::Store,
        Opcode::Jmp(_) => Mnemonic::Jmp,
        Opcode::Jz(_) => Mnemonic::Jz,
        Opcode::Jnz(_) => Mnemonic::Jnz,
        Opcode::Call(_) => Mnemonic::Call,
        Opcode::Ret => Mnemonic::Ret,
        Opcode::Lt => Mnemonic::Lt,
        Opcode::Gt => Mnemonic::Gt,
        Opcode::Eq => Mnemonic::Eq,
        Opcode::And => Mnemonic::And,
        Opcode::Or => Mnemonic::Or,
        Opcode::Not => Mnemonic::Not,
        Opcode::Print => Mnemonic::Print,
        Opcode::Halt => Mnemonic::Halt,
        Opcode::VibeGet => Mnemonic::VibeGet,
        Opcode::VibeSet => Mnemonic::VibeSet,
        Opcode::Sense(_) => Mnemonic::Sense,
        Opcode::Act(_) => Mnemonic::Act,
    }
}

/// A character of a mnemonic: an upper-case ASCII letter or `_`.
spec fn is_name_char(c: char) -> bool {
    ('A' <= c && c <= 'Z') || c == '_'
}

/// The name of an instruction is a word of upper-case letters and `_` that
/// the assembler reads back as the instruction's mnemonic.
proof fn lemma_name<V>(op: Opcode<V>)
    ensures
        op.name().len() >= 2,
        forall|i: int| 0 <= i < op.name().len() ==> is_name_char(#[trigger] op.name()[i]),
        ascii_upper(op.name()) == op.name(),
        mnemonic_of(op.name()) == Some(mnemonic_for(op)),
{
    reveal_strlit("PUSH");
    reveal_strlit("ADD");
    reveal_strlit("SUB");
    reveal_strlit("MUL");
    reveal_strlit("DIV");
    reveal_strlit("NEG");
    reveal_strlit("LOAD");
    reveal_strlit("STORE");
    reveal_strlit("JMP");
    reveal_strlit("JZ");
    reveal_strlit("JNZ");
    reveal_strlit("CALL");
    reveal_strlit("RET");
    reveal_strlit("LT");
    reveal_strlit("GT");
    reveal_strlit("EQ");
    reveal_strlit("AND");
    reveal_strlit("OR");
    reveal_strlit("NOT");
    reveal_strlit("DUP");
    reveal_strlit("POP");
    reveal_strlit("SWAP");
    reveal_strlit("PRINT");
    reveal_strlit("HALT");
    reveal_strlit("VIBE_GET");
    reveal_strlit("VIBE_SET");
    reveal_strlit("SENSE");
    reveal_strlit("SENS");
    reveal_strlit("ACT");
    match op {
        Opcode::Push(_) => {
        },
        Opcode::Dup => {
            assert("DUP"@[0] != "ADD"@[0]);
            assert("DUP"@[0] != "SUB"@[0]);
            assert("DUP"@[0] != "MUL"@[0]);
            assert("DUP"@[1] != "DIV"@[1]);
            assert("DUP"@[0] != "NEG"@[0]);
            assert("DUP"@[0] != "JMP"@[0]);
            assert("DUP"@[0] != "JNZ"@[0]);
            assert("DUP"@[0] != "RET"@[0]);
            assert("DUP"@[0] != "AND"@[0]);
            assert("DUP"@[0] != "NOT"@[0]);
        },
        Opcode::Pop => {
            assert("POP"@[0] != "ADD"@[0]);
            assert("POP"@[0] != "SUB"@[0]);
            assert("POP"@[0] != "MUL"@[0]);
            assert("POP"@[0] != "DIV"@[0]);
            assert("POP"@[0] != "NEG"@[0]);
            assert("POP"@[0] != "JMP"@[0]);
            assert("POP"@[0] != "JNZ"@[0]);
            assert("POP"@[0] != "RET"@[0]);
            assert("POP"@[0] != "AND"@[0]);
            assert("POP"@[0] != "NOT"@[0]);
            assert("POP"@[0] != "DUP"@[0]);
        },
        Opcode::Swap => {
            assert("SWAP"@[0] != "PUSH"@[0]);
            assert("SWAP"@[0] != "LOAD"@[0]);
            assert("SWAP"@[0] != "CALL"@[0]);
        },
        Opcode::Add => {
        },
        Opcode::Sub => {
            assert("SUB"@[0] != "ADD"@[0]);
        },
        Opcode::Mul => {
            assert("MUL"@[0] != "ADD"@[0]);
            assert("MUL"@[0] != "SUB"@[0]);
        },
        Opcode::Div => {
            assert("DIV"@[0] != "ADD"@[0]);
            assert("DIV"@[0] != "SUB"@[0]);
            assert("DIV"@[0] != "MUL"@[0]);
        },
        Opcode::Neg => {
            assert("NEG"@[0] != "ADD"@[0]);
            assert("NEG"@[0] != "SUB"@[0]);
            assert("NEG"@[0] != "MUL"@[0]);
            assert("NEG"@[0] != "DIV"@[0]);
        },
        Opcode::Load(_) => {
            assert("LOAD"@[0] != "PUSH"@[0]);
        },
        Opcode::Store(_) => {
        },
        Opcode::Jmp(_) => {
            assert("JMP"@[0] != "ADD"@[0]);
            assert("JMP"@[0] != "SUB"@[0]);
            assert("JMP"@[0] != "MUL"@[0]);
            assert("JMP"@[0] != "DIV"@[0]);
            assert("JMP"@[0] != "NEG"@[0]);
        },
        Opcode::Jz(_) => {
        },
        Opcode::Jnz(_) => {
            assert("JNZ"@[0] != "ADD"@[0]);
            assert("JNZ"@[0] != "SUB"@[0]);
            assert("JNZ"@[0] != "MUL"@[0]);
            assert("JNZ"@[0] != "DIV"@[0]);
            assert("JNZ"@[0] != "NEG"@[0]);
            assert("JNZ"@[1] != "JMP"@[1]);
        },
        Opcode::Call(_) => {
            assert("CALL"@[0] != "PUSH"@[0]);
            assert("CALL"@[0] != "LOAD"@[0]);
        },
        Opcode::Ret => {
            assert("RET"@[0] != "ADD"@[0]);
            assert("RET"@[0] != "SUB"@[0]);
            assert("RET"@[0] != "MUL"@[0]);
            assert("RET"@[0] != "DIV"@[0]);
            assert("RET"@[0] != "NEG"@[0]);
            assert("RET"@[0] != "JMP"@[0]);
            assert("RET"@[0] != "JNZ"@[0]);
        },
        Opcode::Lt => {
            assert("LT"@[0] != "JZ"@[0]);
        },
        Opcode::Gt => {
            assert("GT"@[0] != "JZ"@[0]);
            assert("GT"@[0] != "LT"@[0]);
        },
        Opcode::Eq => {
            assert("EQ"@[0] != "JZ"@[0]);
            assert("EQ"@[0] != "LT"@[0]);
            assert("EQ"@[0] != "GT"@[0]);
        },
        Opcode::And => {
            assert("AND"@[1] != "ADD"@[1]);
            assert("AND"@[0] != "SUB"@[0]);
            assert("AND"@[0] != "MUL"@[0]);
            assert("AND"@[0] != "DIV"@[0]);
            assert("AND"@[0] != "NEG"@[0]);
            assert("AND"@[0] != "JMP"@[0]);
            assert("AND"@[0] != "JNZ"@[0]);
            assert("AND"@[0] != "RET"@[0]);
        },
        Opcode::Or => {
            assert("OR"@[0] != "JZ"@[0]);
            assert("OR"@[0] != "LT"@[0]);
            assert("OR"@[0] != "GT"@[0]);
            assert("OR"@[0] != "EQ"@[0]);
        },
        Opcode::Not => {
            assert("NOT"@[0] != "ADD"@[0]);
            assert("NOT"@[0] != "SUB"@[0]);
            assert("NOT"@[0] != "MUL"@[0]);
            assert("NOT"@[0] != "DIV"@[0]);
            assert("NOT"@[1] != "NEG"@[1]);
            assert("NOT"@[0] != "JMP"@[0]);
            assert("NOT"@[0] != "JNZ"@[0]);
            assert("NOT"@[0] != "RET"@[0]);
            assert("NOT"@[0] != "AND"@[0]);
        },
        Opcode::Print => {
            assert("PRINT"@[0] != "STORE"@[0]);
        },
        Opcode::Halt => {
            assert("HALT"@[0] != "PUSH"@[0]);
            assert("HALT"@[0] != "LOAD"@[0]);
            assert("HALT"@[0] != "CALL"@[0]);
            assert("HALT"@[0] != "SWAP"@[0]);
        },
        Opcode::VibeGet => {
        },
        Opcode::VibeSet => {
            assert("VIBE_SET"@[5] != "VIBE_GET"@[5]);
        },
        Opcode::Sense(_) => {
            assert("SENSE"@[1] != "STORE"@[1]);
            assert("SENSE"@[0] != "PRINT"@[0]);
        },
        Opcode::Act(_) => {
            assert("ACT"@[1] != "ADD"@[1]);
            assert("ACT"@[0] != "SUB"@[0]);
            assert("ACT"@[0] != "MUL"@[0]);
            assert("ACT"@[0] != "DIV"@[0]);
            assert("ACT"@[0] != "NEG"@[0]);
            assert("ACT"@[0] != "JMP"@[0]);
            assert("ACT"@[0] != "JNZ"@[0]);
            assert("ACT"@[0] != "RET"@[0]);
            assert("ACT"@[1] != "AND"@[1]);
            assert("ACT"@[0] != "NOT"@[0]);
            assert("ACT"@[0] != "DUP"@[0]);
            assert("ACT"@[0] != "POP"@[0]);
        },
    }
    assert(ascii_upper(op.name()) =~= op.name());
}

// ---------------------------------------------------------------------------
// Operands
// ---------------------------------------------------------------------------

/// A character that an operand, as a listing shows it, may hold.
spec fn is_operand_char(c: char) -> bool {
    is_digit(c) || is_ascii_letter(c) || c == '+' || c == '-' || c == '.'
}

/// `o` is a non-empty word of operand characters.
spec fn is_operand_word(o: Seq<char>) -> bool {
    &&& o.len() >= 1
    &&& forall|i: int| 0 <= i < o.len() ==> is_operand_char(#[trigger] o[i])
}

/// The decimal rendering of `n` is a non-empty run of digits whose value is `n`.
pub proof fn lemma_decimal_digits(n: nat)
    ensures
        decimal(n).len() >= 1,
        all_digits(decimal(n)),
        digits_value(decimal(n)) == n,
    decreases n,
{
    let d = n % 10;
    assert(is_digit(digit_char(d)) && digit_char(d) as nat - '0' as nat == d);
    if n >= 10 {
        lemma_decimal_digits(n / 10);
        let s = decimal(n);
        assert(s.drop_last() =~= decimal(n / 10));
        assert(s.last() == digit_char(d));
        assert(digits_value(s) == digits_value(decimal(n / 10)) * 10 + d);
        assert(digits_value(s) == (n / 10) * 10 + d);
        assert((n / 10) * 10 + n % 10 == n) by (nonlinear_arith);
        assert(digits_value(s) == n);
    } else {
        assert(decimal(n).drop_last() =~= Seq::<char>::empty());
        assert(digits_value(Seq::<char>::empty()) == 0);
        assert(decimal(n).last() == digit_char(n));
    }
}

/// The assembler reads a byte back from its decimal rendering.
proof fn lemma_byte_back(i: u8)
    ensures
        u8_literal(decimal(i as nat)) == Some(i),
        i16_literal(decimal(i as nat)) == Some(i as i16),
        is_operand_word(decimal(i as nat)),
{
    lemma_decimal_digits(i as nat);
}

/// The assembler reads an offset back from its signed decimal rendering.
proof fn lemma_offset_back(o: i16)
    ensures
        i16_literal(signed_decimal(o as int)) == Some(o),
        is_operand_word(signed_decimal(o as int)),
{
    if o < 0 {
        let d = decimal((-o) as nat);
        lemma_decimal_digits((-o) as nat);
        assert((seq!['-'] + d).drop_first() =~= d);
        assert forall|i: int| 0 <= i < d.len() + 1 implies is_operand_char(#[trigger] (seq!['-'] + d)[i]) by {
            if i > 0 {
                assert((seq!['-'] + d)[i] == d[i - 1]);
            }
        }
    } else {
        lemma_decimal_digits(o as nat);
    }
}

/// The assembler reads integer operands back from their decimal rendering:
/// a byte from `decimal`, an offset from `signed_decimal`.
pub proof fn lemma_operands_read_back(i: u8, o: i16)
    ensures
        u8_literal(decimal(i as nat)) == Some(i),
        i16_literal(signed_decimal(o as int)) == Some(o),
{
    lemma_byte_back(i);
    lemma_offset_back(o);
}

/// The first `digit_run(s)` characters of `s` are digits.
proof fn lemma_digit_run_digits(s: Seq<char>)
    ensures
        digit_run(s) <= s.len(),
        forall|j: int| 0 <= j < digit_run(s) ==> is_digit(#[trigger] s[j]),
    decreases s.len(),
{
    lemma_run_bounds(s);
    if s.len() > 0 {
        lemma_digit_run_digits(s.drop_first());
        assert forall|j: int| 0 <= j < digit_run(s) implies is_digit(#[trigger] s[j]) by {
            if j > 0 {
                assert(s[j] == s.drop_first()[j - 1]);
            }
        }
    }
}

/// `s` is made of operand characters.
spec fn operand_chars(s: Seq<char>) -> bool {
    forall|i: int| 0 <= i < s.len() ==> is_operand_char(#[trigger] s[i])
}

proof fn lemma_operand_chars_join(a: Seq<char>, b: Seq<char>)
    requires
        operand_chars(a),
        operand_chars(b),
    ensures
        operand_chars(a + b),
{
    assert forall|i: int| 0 <= i < (a + b).len() implies is_operand_char(#[trigger] (a + b)[i]) by {
        if i < a.len() {
            assert((a + b)[i] == a[i]);
        } else {
            assert((a + b)[i] == b[i - a.len()]);
        }
    }
}

proof fn lemma_digit_prefix_chars(s: Seq<char>)
    ensures
        operand_chars(s.take(digit_run(s) as int)),
        digit_run(s) <= s.len(),
{
    lemma_digit_run_digits(s);
    assert forall|i: int| 0 <= i < digit_run(s) implies is_operand_char(#[trigger] s.take(digit_run(s) as int)[i]) by {
        assert(s.take(digit_run(s) as int)[i] == s[i]);
    }
}

/// An exponent is made of operand characters.
proof fn lemma_exponent_chars(s: Seq<char>)
    requires
        is_exponent(s),
    ensures
        operand_chars(s),
{
    let t = s.drop_first();
    let signed = t.len() > 0 && (t[0] == '+' || t[0] == '-');
    let u = if signed { t.drop_first() } else { t };
    lemma_digit_run_digits(u);
    assert forall|i: int| 0 <= i < s.len() implies is_operand_char(#[trigger] s[i]) by {
        if i == 0 {
        } else if signed && i == 1 {
            assert(s[1] == t[0]);
        } else if signed {
            assert(s[i] == u[i - 2]);
        } else {
            assert(s[i] == u[i - 1]);
        }
    }
}

/// A decimal number is made of operand characters.
proof fn lemma_decimal_number_chars(s: Seq<char>)
    requires
        is_decimal_number(s),
    ensures
        operand_chars(s),
        s.len() >= 1,
{
    lemma_digit_prefix_chars(s);
    let d1 = digit_run(s) as int;
    let r1 = s.skip(d1);
    assert(s =~= s.take(d1) + r1);
    if r1.len() > 0 && r1[0] == '.' {
        let r2 = r1.drop_first();
        lemma_digit_prefix_chars(r2);
        let d2 = digit_run(r2) as int;
        let r3 = r2.skip(d2);
        assert(r2 =~= r2.take(d2) + r3);
        if r3.len() > 0 {
            lemma_exponent_chars(r3);
        }
        lemma_operand_chars_join(r2.take(d2), r3);
        assert(r1 =~= seq!['.'] + r2);
        lemma_operand_chars_join(seq!['.'], r2);
    } else if r1.len() > 0 {
        lemma_exponent_chars(r1);
    }
    lemma_operand_chars_join(s.take(d1), r1);
}

/// A word in any case that is one of `inf`, `infinity` and `nan` is made of letters.
proof fn lemma_word_chars(s: Seq<char>, word: Seq<char>)
    requires
        is_word_ignoring_case(s, word),
        forall|i: int| 0 <= i < word.len() ==> 'a' <= #[trigger] word[i] && word[i] <= 'z',
    ensures
        operand_chars(s),
{
    assert forall|i: int| 0 <= i < s.len() implies is_operand_char(#[trigger] s[i]) by {
        assert(ascii_lower_char(s[i]) == word[i]);
    }
}

/// A number literal is a non-empty word of operand characters.
proof fn lemma_literal_chars(l: Seq<char>)
    requires
        is_number_literal(l),
    ensures
        is_operand_word(l),
{
    reveal_strlit("inf");
    reveal_strlit("infinity");
    reveal_strlit("nan");
    let signed = l.len() > 0 && (l[0] == '+' || l[0] == '-');
    let b = if signed { l.drop_first() } else { l };
    if is_word_ignoring_case(b, "inf"@) {
        lemma_word_chars(b, "inf"@);
    } else if is_word_ignoring_case(b, "infinity"@) {
        lemma_word_chars(b, "infinity"@);
    } else if is_word_ignoring_case(b, "nan"@) {
        lemma_word_chars(b, "nan"@);
    } else {
        lemma_decimal_number_chars(b);
    }
    if signed {
        assert(l =~= seq![l[0]] + b);
        lemma_operand_chars_join(seq![l[0]], b);
    }
}

// ---------------------------------------------------------------------------
// The law
// ---------------------------------------------------------------------------

/// The `PUSH` literal of `op`; empty for the other instructions.
pub open spec fn literal_of(op: Opcode<Seq<char>>) -> Seq<char> {
    match op {
        Opcode::Push(l) => l,
        _ => Seq::empty(),
    }
}

/// The assembler accepts the operand of `op` as a listing shows it: a local
/// index up to 15, a channel up to 7, and a `PUSH` literal that is a number
/// literal.
pub open spec fn operand_readable(op: Opcode<Seq<char>>) -> bool {
    match op {
        Opcode::Push(l) => is_number_literal(l),
        Opcode::Load(i) => i <= 15,
        Opcode::Store(i) => i <= 15,
        Opcode::Sense(c) => c <= 7,
        Opcode::Act(c) => c <= 7,
        _ => true,
    }
}

/// The operand of `op`, as a listing shows it, is a word of operand characters
/// that the assembler reads back.
proof fn lemma_operand_text(op: Opcode<Seq<char>>)
    requires
        operand_readable(op),
    ensures
        op.operand_text(literal_of(op)) matches Some(o) ==> is_operand_word(o),
        op matches Opcode::Load(i) ==> u8_literal(decimal(i as nat)) == Some(i),
        op matches Opcode::Store(i) ==> u8_literal(decimal(i as nat)) == Some(i),
        op matches Opcode::Sense(i) ==> u8_literal(decimal(i as nat)) == Some(i),
        op matches Opcode::Act(i) ==> u8_literal(decimal(i as nat)) == Some(i),
        op matches Opcode::Call(i) ==> i16_literal(decimal(i as nat)) == Some(i as i16),
        op matches Opcode::Jmp(o) ==> i16_literal(signed_decimal(o as int)) == Some(o),
        op matches Opcode::Jz(o) ==> i16_literal(signed_decimal(o as int)) == Some(o),
        op matches Opcode::Jnz(o) ==> i16_literal(signed_decimal(o as int)) == Some(o),
{
    match op {
        Opcode::Push(l) => lemma_literal_chars(l),
        Opcode::Load(i) => lemma_byte_back(i),
        Opcode::Store(i) => lemma_byte_back(i),
        Opcode::Sense(i) => lemma_byte_back(i),
        Opcode::Act(i) => lemma_byte_back(i),
        Opcode::Call(i) => lemma_byte_back(i),
        Opcode::Jmp(o) => lemma_offset_back(o),
        Opcode::Jz(o) => lemma_offset_back(o),
        Opcode::Jnz(o) => lemma_offset_back(o),
        _ => {},
    }
}

/// Text without a line feed is one line.
proof fn lemma_one_line(s: Seq<char>)
    requires
        forall|i: int| 0 <= i < s.len() ==> #[trigger] s[i] != '\n',
    ensures
        lines_of(s) == seq![s],
    decreases s.len(),
{
    if s.len() > 0 {
        assert forall|i: int| 0 <= i < s.len() - 1 implies #[trigger] s.drop_last()[i] != '\n' by {
            assert(s.drop_last()[i] == s[i]);
        }
        lemma_one_line(s.drop_last());
        assert(s[s.len() - 1] != '\n');
        assert(s.drop_last().push(s.last()) =~= s);
        assert(lines_of(s) =~= seq![s]);
    } else {
        assert(s =~= Seq::<char>::empty());
        assert(lines_of(s) =~= seq![s]);
    }
}

/// The shape of a line holding the word `name` and then, if any, a space and
/// the word `operand`: one line, already trimmed, whose first word is `name`
/// and whose operand is `operand`.
proof fn lemma_line_shape(name: Seq<char>, operand: Option<Seq<char>>)
    requires
        name.len() >= 1,
        forall|i: int| 0 <= i < name.len() ==> is_name_char(#[trigger] name[i]),
        operand matches Some(o) ==> is_operand_word(o),
    ensures
        ({
            let t = match operand {
                Some(o) => name + seq![' '] + o,
                None => name,
            };
            let k = name.len() as int;
            &&& lines_of(t) == seq![t]
            &&& trim(t) == t
            &&& t.len() > 0
            &&& t[0] != '#' && t[0] != ';'
            &&& t.last() != ':'
            &&& word_len(t) == k
            &&& t.take(k) == name
            &&& operand_of(t) == operand
        }),
{
    let t = match operand {
        Some(o) => name + seq![' '] + o,
        None => name,
    };
    let k = name.len() as int;
    let rest: Seq<char> = match operand {
        Some(o) => seq![' '] + o,
        None => Seq::empty(),
    };
    assert(t =~= name + rest);
    assert forall|i: int| 0 <= i < t.len() implies #[trigger] t[i] != '\n' && (i < k ==> is_name_char(t[i]))
        && (i > k ==> is_operand_char(t[i])) by {
        if i < k {
            assert(t[i] == name[i]);
        } else {
            assert(t[i] == rest[i - k]);
            if i > k {
                let o = operand->0;
                assert(rest[i - k] == o[i - k - 1]);
            }
        }
    }
    lemma_one_line(t);
    lemma_leading_space(t, 0);
    lemma_trailing_space(t, t.len() as int);
    assert(trim(t) =~= t);
    lemma_word_len(t, k);
    assert(t.take(k) =~= name);
    assert(t.skip(k) =~= rest);
    if let Some(o) = operand {
        assert(rest[1] == o[0]);
        lemma_leading_space(rest, 1);
        assert(trim_start(rest) =~= o);
        lemma_word_len(o, o.len() as int);
        assert(o.take(o.len() as int) =~= o);
    } else {
        lemma_leading_space(rest, 0);
    }
}

/// The instruction of `op`, with the operand as a listing shows it, assembles
/// to `op` on an empty assembly.
proof fn lemma_instruction_back(op: Opcode<Seq<char>>)
    requires
        operand_readable(op),
    ensures
        assemble_instruction(
            Casing::Ascii,
            empty_assembly(),
            mnemonic_for(op),
            op.name(),
            op.operand_text(literal_of(op)),
            1,
        ) == Ok::<Assembly, Seq<char>>(emit(empty_assembly(), op, 1)),
{
    lemma_operand_text(op);
    if let Opcode::Call(c) = op {
        assert((c as i16) as u8 == c);
    }
}

/// The assembly before the first line.
spec fn empty_assembly() -> Assembly {
    Assembly { program: Seq::empty(), labels: Seq::empty(), refs: Seq::empty() }
}

/// The text of an instruction, as a listing shows it (a `PUSH` with its
/// literal), assembles back to that instruction alone, on line 1, whenever
/// the assembler accepts its operand. For ASCII text,
/// [`crate::compiler::Compiler::compile`] assembles as `compile_text` with
/// the ASCII case mapping does.
pub proof fn lemma_text_assembles_back(op: Opcode<Seq<char>>)
    requires
        operand_readable(op),
    ensures
        compile_text(Casing::Ascii, op.text(literal_of(op))) == Ok::<Seq<Instruction<Seq<char>>>, Seq<char>>(
            seq![Instruction { opcode: op, line: 1 }],
        ),
{
    let t = op.text(literal_of(op));
    lemma_name(op);
    lemma_operand_text(op);
    lemma_line_shape(op.name(), op.operand_text(literal_of(op)));
    lemma_instruction_back(op);
    let operand = op.operand_text(literal_of(op));
    assert(t == match operand {
        Some(o) => op.name() + seq![' '] + o,
        None => op.name(),
    });
    assert(seq![t].drop_last() =~= Seq::<Seq<char>>::empty());
    assert(seq![t].last() == t);
    assert(assemble_lines(Casing::Ascii, Seq::empty()) == Ok::<Assembly, Seq<char>>(empty_assembly()));
    assert(assemble_lines(Casing::Ascii, seq![t]) == assemble_line(Casing::Ascii, empty_assembly(), t, 1));
    assert(assemble_line(Casing::Ascii, empty_assembly(), t, 1) == assemble_instruction(
        Casing::Ascii,
        empty_assembly(),
        mnemonic_for(op),
        op.name(),
        operand,
        1,
    ));
    let a = emit(empty_assembly(), op, 1);
    assert(a.program =~= seq![Instruction { opcode: op, line: 1 }]);
    assert(resolve_refs(a.program, a.labels, a.refs) == Ok::<Seq<Instruction<Seq<char>>>, Seq<char>>(a.program));
}

} // verus!
