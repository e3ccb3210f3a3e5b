//! Program text is read without regard to the case of ASCII letters:
//! mnemonics are compared in upper case and label names in lower case, and
//! the literals read as numbers and integers accept either case alike.

use vstd::prelude::*;

use crate::compiler::{
    assemble_instruction, assemble_line, assemble_lines, compile_text, emit, find_label, is_jump,
    jump_opcode, lemma_assembled_lines, lemma_lines_of_nonempty, lines_of, mnemonic_of, operand_of,
    resolve_refs, Assembly, Casing, LabelRef, Mnemonic,
};
use crate::program::{Instruction, Opcode};
use crate::text::{
    all_digits, ascii_lower, ascii_lower_char, ascii_upper, ascii_upper_char, digit_run,
    i16_literal, is_ascii_letter, is_decimal_number, is_digit, is_exponent, is_number_literal,
    is_space, is_word_ignoring_case, leading_space, lemma_run_bounds, signed_literal,
    trailing_space, trim, trim_start, u8_literal, unsigned_literal, word_len,
};

verus! {

/// `s1` and `s2` are equal but for the case of ASCII letters.
pub open spec fn same_but_case(s1: Seq<char>, s2: Seq<char>) -> bool {
    ascii_lower(s1) == ascii_lower(s2)
}

/// `s1` and `s2` agree, character by character, but for the case of ASCII letters.
spec fn agree(s1: Seq<char>, s2: Seq<char>) -> bool {
    &&& s1.len() == s2.len()
    &&& forall|i: int|
        #![trigger s1[i]]
        #![trigger s2[i]]
        0 <= i < s1.len() ==> ascii_lower_char(s1[i]) == ascii_lower_char(s2[i])
}

/// Two characters that are equal but for case are both letters, or equal.
proof fn lemma_chars(c1: char, c2: char)
    requires
        ascii_lower_char(c1) == ascii_lower_char(c2),
    ensures
        is_ascii_letter(c1) == is_ascii_letter(c2),
        !is_ascii_letter(c1) ==> c1 == c2,
        ascii_upper_char(c1) == ascii_upper_char(c2),
        is_space(c1) == is_space(c2),
        is_digit(c1) == is_digit(c2),
        (c1 == 'e' || c1 == 'E') == (c2 == 'e' || c2 == 'E'),
{
    let u1 = c1 as u32;
    let u2 = c2 as u32;
    if 'A' <= c1 && c1 <= 'Z' {
        assert((((u1 + 32) as char) as u32) == u1 + 32);
    }
    if 'A' <= c2 && c2 <= 'Z' {
        assert((((u2 + 32) as char) as u32) == u2 + 32);
    }
    if 'a' <= c1 && c1 <= 'z' {
        assert((((u1 - 32) as char) as u32) == u1 - 32);
    }
    if 'a' <= c2 && c2 <= 'z' {
        assert((((u2 - 32) as char) as u32) == u2 - 32);
    }
}

proof fn lemma_agree_of_same(s1: Seq<char>, s2: Seq<char>)
    requires
        same_but_case(s1, s2),
    ensures
        agree(s1, s2),
{
    assert(ascii_lower(s1).len() == s1.len());
    assert(ascii_lower(s2).len() == s2.len());
    assert forall|i: int| 0 <= i < s1.len() implies ascii_lower_char(s1[i]) == ascii_lower_char(s2[i]) by {
        assert(ascii_lower(s1)[i] == ascii_lower_char(s1[i]));
        assert(ascii_lower(s2)[i] == ascii_lower_char(s2[i]));
    }
}

proof fn lemma_same_of_agree(s1: Seq<char>, s2: Seq<char>)
    requires
        agree(s1, s2),
    ensures
        same_but_case(s1, s2),
{
    assert(ascii_lower(s1) =~= ascii_lower(s2));
}

/// Agreeing sequences have agreeing upper-case forms.
proof fn lemma_upper_of_agree(s1: Seq<char>, s2: Seq<char>)
    requires
        agree(s1, s2),
    ensures
        ascii_upper(s1) == ascii_upper(s2),
{
    assert forall|i: int| 0 <= i < s1.len() implies ascii_upper(s1)[i] == ascii_upper(s2)[i] by {
        lemma_chars(s1[i], s2[i]);
    }
    assert(ascii_upper(s1) =~= ascii_upper(s2));
}

/// Agreeing sequences agree on every slice.
proof fn lemma_agree_sub(s1: Seq<char>, s2: Seq<char>, a: int, b: int)
    requires
        agree(s1, s2),
        0 <= a <= b <= s1.len(),
    ensures
        agree(s1.subrange(a, b), s2.subrange(a, b)),
{
    assert forall|i: int| 0 <= i < b - a implies ascii_lower_char(s1.subrange(a, b)[i]) == ascii_lower_char(
        s2.subrange(a, b)[i],
    ) by {
        assert(s1.subrange(a, b)[i] == s1[a + i]);
        assert(s2.subrange(a, b)[i] == s2[a + i]);
    }
}

/// The character at `i` of agreeing sequences is the same unless it is a letter.
proof fn lemma_agree_at(s1: Seq<char>, s2: Seq<char>, i: int)
    requires
        agree(s1, s2),
        0 <= i < s1.len(),
    ensures
        is_ascii_letter(s1[i]) == is_ascii_letter(s2[i]),
        !is_ascii_letter(s1[i]) ==> s1[i] == s2[i],
        is_space(s1[i]) == is_space(s2[i]),
        is_digit(s1[i]) == is_digit(s2[i]),
{
    lemma_chars(s1[i], s2[i]);
}

/// Agreeing sequences have the same white space and digit runs.
proof fn lemma_agree_runs(s1: Seq<char>, s2: Seq<char>)
    requires
        agree(s1, s2),
    ensures
        leading_space(s1) == leading_space(s2),
        trailing_space(s1) == trailing_space(s2),
        word_len(s1) == word_len(s2),
        digit_run(s1) == digit_run(s2),
    decreases s1.len(),
{
    if s1.len() > 0 {
        let n = s1.len() as int;
        lemma_agree_at(s1, s2, 0);
        lemma_agree_at(s1, s2, n - 1);
        lemma_agree_sub(s1, s2, 1, n);
        lemma_agree_sub(s1, s2, 0, n - 1);
        lemma_agree_runs(s1.drop_first(), s2.drop_first());
        lemma_agree_runs(s1.drop_last(), s2.drop_last());
    }
}

/// Agreeing sequences trim alike.
proof fn lemma_agree_trim(s1: Seq<char>, s2: Seq<char>)
    requires
        agree(s1, s2),
    ensures
        agree(trim_start(s1), trim_start(s2)),
        agree(trim(s1), trim(s2)),
{
    lemma_agree_runs(s1, s2);
    let k = leading_space(s1) as int;
    assert(k <= s1.len()) by {
        lemma_run_bounds(s1);
    }
    lemma_agree_sub(s1, s2, k, s1.len() as int);
    let t1 = trim_start(s1);
    let t2 = trim_start(s2);
    lemma_agree_runs(t1, t2);
    assert(trailing_space(t1) <= t1.len()) by {
        lemma_run_bounds(t1);
    }
    lemma_agree_sub(t1, t2, 0, t1.len() - trailing_space(t1));
}



/// Agreeing sequences of digits are equal, and a sequence that agrees with
/// one of digits is one.
proof fn lemma_agree_digits(s1: Seq<char>, s2: Seq<char>)
    requires
        agree(s1, s2),
    ensures
        all_digits(s1) == all_digits(s2),
        all_digits(s1) ==> s1 == s2,
{
    assert forall|i: int| 0 <= i < s1.len() implies is_digit(s1[i]) == is_digit(s2[i]) by {
        lemma_agree_at(s1, s2, i);
    }
    if all_digits(s1) {
        assert forall|i: int| 0 <= i < s1.len() implies s1[i] == s2[i] by {
            lemma_agree_at(s1, s2, i);
            assert(is_digit(s1[i]));
        }
        assert(s1 =~= s2);
    }
}

/// Integer operands read alike whatever the case of their letters.
proof fn lemma_agree_integers(s1: Seq<char>, s2: Seq<char>)
    requires
        agree(s1, s2),
    ensures
        unsigned_literal(s1) == unsigned_literal(s2),
        signed_literal(s1) == signed_literal(s2),
        u8_literal(s1) == u8_literal(s2),
        i16_literal(s1) == i16_literal(s2),
{
    let n = s1.len() as int;
    if n > 0 {
        lemma_agree_at(s1, s2, 0);
        lemma_agree_sub(s1, s2, 1, n);
        lemma_agree_digits(s1.drop_first(), s2.drop_first());
    }
    lemma_agree_digits(s1, s2);
}

/// Whether an operand is a number literal does not depend on the case of its letters.
proof fn lemma_agree_number(s1: Seq<char>, s2: Seq<char>)
    requires
        agree(s1, s2),
    ensures
        is_number_literal(s1) == is_number_literal(s2),
{
    let n = s1.len() as int;
    let signed = n > 0 && (s1[0] == '+' || s1[0] == '-');
    if n > 0 {
        lemma_agree_at(s1, s2, 0);
    }
    let b1 = if signed { s1.drop_first() } else { s1 };
    let b2 = if signed { s2.drop_first() } else { s2 };
    if signed {
        lemma_agree_sub(s1, s2, 1, n);
    }
    assert(agree(b1, b2));
    lemma_agree_words(b1, b2, "inf"@);
    lemma_agree_words(b1, b2, "infinity"@);
    lemma_agree_words(b1, b2, "nan"@);
    lemma_agree_decimal(b1, b2);
}

proof fn lemma_agree_words(s1: Seq<char>, s2: Seq<char>, word: Seq<char>)
    requires
        agree(s1, s2),
    ensures
        is_word_ignoring_case(s1, word) == is_word_ignoring_case(s2, word),
{
}

proof fn lemma_agree_decimal(s1: Seq<char>, s2: Seq<char>)
    requires
        agree(s1, s2),
    ensures
        is_decimal_number(s1) == is_decimal_number(s2),
{
    lemma_agree_runs(s1, s2);
    let d1 = digit_run(s1) as int;
    assert(d1 <= s1.len()) by {
        lemma_run_bounds(s1);
    }
    let r1 = s1.skip(d1);
    let r2 = s2.skip(d1);
    lemma_agree_sub(s1, s2, d1, s1.len() as int);
    if r1.len() > 0 {
        lemma_agree_at(r1, r2, 0);
        lemma_agree_sub(r1, r2, 1, r1.len() as int);
        let q1 = r1.drop_first();
        let q2 = r2.drop_first();
        lemma_agree_runs(q1, q2);
        let d2 = digit_run(q1) as int;
        assert(d2 <= q1.len()) by {
            lemma_run_bounds(q1);
        }
        lemma_agree_sub(q1, q2, d2, q1.len() as int);
        lemma_agree_exponent(q1.skip(d2), q2.skip(d2));
    }
    lemma_agree_exponent(r1, r2);
}

proof fn lemma_agree_exponent(s1: Seq<char>, s2: Seq<char>)
    requires
        agree(s1, s2),
    ensures
        is_exponent(s1) == is_exponent(s2),
{
    let n = s1.len() as int;
    if n > 0 {
        lemma_agree_at(s1, s2, 0);
        lemma_chars(s1[0], s2[0]);
        lemma_agree_sub(s1, s2, 1, n);
        let t1 = s1.drop_first();
        let t2 = s2.drop_first();
        if t1.len() > 0 {
            lemma_agree_at(t1, t2, 0);
            lemma_agree_sub(t1, t2, 1, t1.len() as int);
            lemma_agree_runs(t1.drop_first(), t2.drop_first());
        }
        lemma_agree_runs(t1, t2);
    }
}

// ---------------------------------------------------------------------------
// Assemblies that differ only in the case of literals
// ---------------------------------------------------------------------------

/// `i` with the letters of its `PUSH` literal, if it has one, in lower case.
pub open spec fn fold_instruction(i: Instruction<Seq<char>>) -> Instruction<Seq<char>> {
    Instruction {
        opcode: match i.opcode {
            Opcode::Push(l) => Opcode::Push(ascii_lower(l)),
            op => op,
        },
        line: i.line,
    }
}

/// `p` with the letters of its `PUSH` literals in lower case.
pub open spec fn fold_literals(p: Seq<Instruction<Seq<char>>>) -> Seq<Instruction<Seq<char>>> {
    p.map_values(|i: Instruction<Seq<char>>| fold_instruction(i))
}

/// The same assembly but for the case of the letters of `PUSH` literals.
spec fn assembly_alike(a1: Assembly, a2: Assembly) -> bool {
    &&& fold_literals(a1.program) == fold_literals(a2.program)
    &&& a1.labels == a2.labels
    &&& a1.refs == a2.refs
}

/// Both errors, or both assemblies alike.
spec fn alike(r1: Result<Assembly, Seq<char>>, r2: Result<Assembly, Seq<char>>) -> bool {
    match (r1, r2) {
        (Ok(a1), Ok(a2)) => assembly_alike(a1, a2),
        (Err(_), Err(_)) => true,
        _ => false,
    }
}

proof fn lemma_fold_facts(p1: Seq<Instruction<Seq<char>>>, p2: Seq<Instruction<Seq<char>>>)
    requires
        fold_literals(p1) == fold_literals(p2),
    ensures
        p1.len() == p2.len(),
        forall|i: int| 0 <= i < p1.len() ==> #[trigger] p1[i].line == p2[i].line,
{
    assert(fold_literals(p1).len() == p1.len());
    assert(fold_literals(p2).len() == p2.len());
    assert forall|i: int| 0 <= i < p1.len() implies #[trigger] p1[i].line == p2[i].line by {
        assert(fold_literals(p1)[i] == fold_instruction(p1[i]));
        assert(fold_literals(p2)[i] == fold_instruction(p2[i]));
    }
}

proof fn lemma_fold_push(p: Seq<Instruction<Seq<char>>>, x: Instruction<Seq<char>>)
    ensures
        fold_literals(p.push(x)) == fold_literals(p).push(fold_instruction(x)),
{
    assert(fold_literals(p.push(x)) =~= fold_literals(p).push(fold_instruction(x)));
}

proof fn lemma_fold_update(p: Seq<Instruction<Seq<char>>>, i: int, x: Instruction<Seq<char>>)
    requires
        0 <= i < p.len(),
    ensures
        fold_literals(p.update(i, x)) == fold_literals(p).update(i, fold_instruction(x)),
{
    assert(fold_literals(p.update(i, x)) =~= fold_literals(p).update(i, fold_instruction(x)));
}

proof fn lemma_emit(a1: Assembly, a2: Assembly, op1: Opcode<Seq<char>>, op2: Opcode<Seq<char>>, line_no: u32)
    requires
        assembly_alike(a1, a2),
        fold_instruction(Instruction { opcode: op1, line: line_no }) == fold_instruction(
            Instruction { opcode: op2, line: line_no },
        ),
    ensures
        assembly_alike(emit(a1, op1, line_no), emit(a2, op2, line_no)),
{
    lemma_fold_push(a1.program, Instruction { opcode: op1, line: line_no });
    lemma_fold_push(a2.program, Instruction { opcode: op2, line: line_no });
}

// ---------------------------------------------------------------------------
// Lines
// ---------------------------------------------------------------------------

/// An instruction with agreeing operands assembles alike.
proof fn lemma_instruction_alike(
    a1: Assembly,
    a2: Assembly,
    m: Mnemonic,
    upper: Seq<char>,
    arg1: Option<Seq<char>>,
    arg2: Option<Seq<char>>,
    line_no: u32,
)
    requires
        assembly_alike(a1, a2),
        arg1 is Some == arg2 is Some,
        arg1 is Some ==> agree(arg1->0, arg2->0),
    ensures
        alike(
            assemble_instruction(Casing::Ascii, a1, m, upper, arg1, line_no),
            assemble_instruction(Casing::Ascii, a2, m, upper, arg2, line_no),
        ),
{
    lemma_fold_facts(a1.program, a2.program);
    let r1 = assemble_instruction(Casing::Ascii, a1, m, upper, arg1, line_no);
    let r2 = assemble_instruction(Casing::Ascii, a2, m, upper, arg2, line_no);
    if let Some(x1) = arg1 {
        let x2 = arg2->0;
        lemma_agree_integers(x1, x2);
        lemma_agree_number(x1, x2);
        lemma_same_of_agree(x1, x2);
        let n = x1.len() as int;
        if n > 0 {
            lemma_agree_at(x1, x2, 0);
            lemma_agree_sub(x1, x2, 1, n);
            lemma_same_of_agree(x1.drop_first(), x2.drop_first());
        }
        if r1 is Ok && r2 is Ok {
            if m is Push {
                lemma_emit(a1, a2, Opcode::Push(x1), Opcode::Push(x2), line_no);
            } else if is_jump(m) && n > 0 && x1[0] == '@' {
                let ins = Instruction { opcode: jump_opcode(m, 0), line: line_no };
                lemma_fold_push(a1.program, ins);
                lemma_fold_push(a2.program, ins);
            } else {
                let last = r1->Ok_0.program.last();
                lemma_emit(a1, a2, last.opcode, last.opcode, line_no);
            }
        }
    } else if r1 is Ok && r2 is Ok {
        let last = r1->Ok_0.program.last();
        lemma_emit(a1, a2, last.opcode, last.opcode, line_no);
    }
}

/// Agreeing lines assemble alike.
proof fn lemma_line_alike(a1: Assembly, a2: Assembly, l1: Seq<char>, l2: Seq<char>, line_no: u32)
    requires
        assembly_alike(a1, a2),
        agree(l1, l2),
    ensures
        alike(assemble_line(Casing::Ascii, a1, l1, line_no), assemble_line(Casing::Ascii, a2, l2, line_no)),
{
    lemma_fold_facts(a1.program, a2.program);
    lemma_agree_trim(l1, l2);
    let t1 = trim(l1);
    let t2 = trim(l2);
    let n = t1.len() as int;
    if n > 0 {
        lemma_agree_at(t1, t2, 0);
        lemma_agree_at(t1, t2, n - 1);
        lemma_agree_sub(t1, t2, 0, n - 1);
        lemma_agree_trim(t1.drop_last(), t2.drop_last());
        lemma_same_of_agree(trim(t1.drop_last()), trim(t2.drop_last()));
        lemma_agree_runs(t1, t2);
        let w = word_len(t1) as int;
        assert(w <= n) by {
            lemma_run_bounds(t1);
        }
        lemma_agree_sub(t1, t2, 0, w);
        lemma_upper_of_agree(t1.take(w), t2.take(w));
        lemma_agree_sub(t1, t2, w, n);
        lemma_agree_trim(t1.skip(w), t2.skip(w));
        let rest1 = trim_start(t1.skip(w));
        let rest2 = trim_start(t2.skip(w));
        lemma_agree_runs(rest1, rest2);
        let v = word_len(rest1) as int;
        assert(v <= rest1.len()) by {
            lemma_run_bounds(rest1);
        }
        lemma_agree_sub(rest1, rest2, 0, v);
        let upper = ascii_upper(t1.take(w));
        if let Some(m) = mnemonic_of(upper) {
            lemma_instruction_alike(a1, a2, m, upper, operand_of(t1), operand_of(t2), line_no);
        }
    }
}


/// Agreeing texts break into agreeing lines.
proof fn lemma_lines_agree(s1: Seq<char>, s2: Seq<char>)
    requires
        agree(s1, s2),
    ensures
        lines_of(s1).len() == lines_of(s2).len(),
        forall|k: int| 0 <= k < lines_of(s1).len() ==> agree(#[trigger] lines_of(s1)[k], lines_of(s2)[k]),
    decreases s1.len(),
{
    let n = s1.len() as int;
    if n > 0 {
        lemma_agree_sub(s1, s2, 0, n - 1);
        lemma_lines_agree(s1.drop_last(), s2.drop_last());
        lemma_lines_of_nonempty(s1.drop_last());
        lemma_agree_at(s1, s2, n - 1);
        let p1 = lines_of(s1.drop_last());
        let p2 = lines_of(s2.drop_last());
        if s1.last() != '\n' {
            let q1 = p1.last().push(s1.last());
            let q2 = p2.last().push(s2.last());
            assert(agree(p1.last(), p2.last()));
            assert(agree(q1, q2)) by {
                assert forall|i: int| 0 <= i < q1.len() implies ascii_lower_char(q1[i]) == ascii_lower_char(q2[i]) by {
                    if i < q1.len() - 1 {
                        assert(q1[i] == p1.last()[i]);
                        assert(q2[i] == p2.last()[i]);
                    }
                }
            }
            assert forall|k: int| 0 <= k < lines_of(s1).len() implies agree(#[trigger] lines_of(s1)[k], lines_of(s2)[k]) by {
                if k < p1.len() - 1 {
                    assert(lines_of(s1)[k] == p1[k]);
                    assert(lines_of(s2)[k] == p2[k]);
                }
            }
        } else {
            assert forall|k: int| 0 <= k < lines_of(s1).len() implies agree(#[trigger] lines_of(s1)[k], lines_of(s2)[k]) by {
                if k < p1.len() {
                    assert(lines_of(s1)[k] == p1[k]);
                    assert(lines_of(s2)[k] == p2[k]);
                }
            }
        }
    }
}

/// Agreeing lines assemble alike, up to the first error.
proof fn lemma_lines_alike(lines1: Seq<Seq<char>>, lines2: Seq<Seq<char>>)
    requires
        lines1.len() == lines2.len(),
        forall|k: int| 0 <= k < lines1.len() ==> agree(#[trigger] lines1[k], lines2[k]),
    ensures
        alike(assemble_lines(Casing::Ascii, lines1), assemble_lines(Casing::Ascii, lines2)),
    decreases lines1.len(),
{
    let n = lines1.len() as int;
    if n > 0 {
        assert forall|k: int| 0 <= k < n - 1 implies agree(#[trigger] lines1.drop_last()[k], lines2.drop_last()[k]) by {
            assert(lines1.drop_last()[k] == lines1[k]);
            assert(lines2.drop_last()[k] == lines2[k]);
        }
        lemma_lines_alike(lines1.drop_last(), lines2.drop_last());
        if let Ok(a1) = assemble_lines(Casing::Ascii, lines1.drop_last()) {
            let a2 = assemble_lines(Casing::Ascii, lines2.drop_last())->Ok_0;
            assert(agree(lines1[n - 1], lines2[n - 1]));
            lemma_line_alike(a1, a2, lines1.last(), lines2.last(), #[verifier::truncate] (n as u32));
        }
    }
}

// ---------------------------------------------------------------------------
// Label references
// ---------------------------------------------------------------------------

/// Programs alike but for the case of literals resolve alike.
proof fn lemma_resolve_alike(
    p1: Seq<Instruction<Seq<char>>>,
    p2: Seq<Instruction<Seq<char>>>,
    labels: Seq<(Seq<char>, nat)>,
    refs: Seq<LabelRef>,
)
    requires
        fold_literals(p1) == fold_literals(p2),
        forall|k: int| 0 <= k < refs.len() ==> #[trigger] refs[k].index < p1.len(),
    ensures
        resolve_refs(p1, labels, refs) is Ok == resolve_refs(p2, labels, refs) is Ok,
        resolve_refs(p1, labels, refs) matches Ok(q1) ==> fold_literals(q1) == fold_literals(
            resolve_refs(p2, labels, refs)->Ok_0,
        ),
    decreases refs.len(),
{
    if refs.len() > 0 {
        lemma_fold_facts(p1, p2);
        let r = refs[0];
        let i = r.index as int;
        assert(p1[i].line == p2[i].line);
        assert forall|k: int| 0 <= k < refs.drop_first().len() implies #[trigger] refs.drop_first()[k].index < p1.len() by {
            assert(refs.drop_first()[k] == refs[k + 1]);
        }
        if let Some(t) = find_label(labels, r.name) {
            if !(r.kind is Call && t > 255) {
                let op = if r.kind is Call {
                    Opcode::Call(t as u8)
                } else {
                    jump_opcode(r.kind, crate::compiler::relative(t, r.index))
                };
                let x = Instruction { opcode: op, line: p1[i].line };
                lemma_fold_update(p1, i, x);
                lemma_fold_update(p2, i, x);
                lemma_resolve_alike(p1.update(i, x), p2.update(i, x), labels, refs.drop_first());
            }
        }
    }
}

// ---------------------------------------------------------------------------
// The law
// ---------------------------------------------------------------------------

/// Program text is read without regard to the case of ASCII letters: two
/// texts that differ only in the case of ASCII letters (in mnemonics, label
/// names, operands or comments) either both fail to assemble, or both
/// assemble, to programs that differ at most in the case of the letters of
/// their `PUSH` literals (`1e5` and `1E5`, `inf` and `INF`). For ASCII
/// text, [`crate::compiler::Compiler::compile`] assembles as `compile_text`
/// with the ASCII case mapping does.
pub proof fn lemma_text_ignores_case(s1: Seq<char>, s2: Seq<char>)
    requires
        same_but_case(s1, s2),
    ensures
        compile_text(Casing::Ascii, s1) is Ok == compile_text(Casing::Ascii, s2) is Ok,
        compile_text(Casing::Ascii, s1) matches Ok(p1) ==> fold_literals(p1) == fold_literals(
            compile_text(Casing::Ascii, s2)->Ok_0,
        ),
{
    lemma_agree_of_same(s1, s2);
    lemma_lines_agree(s1, s2);
    lemma_lines_alike(lines_of(s1), lines_of(s2));
    lemma_assembled_lines(Casing::Ascii, lines_of(s1));
    if let Ok(a1) = assemble_lines(Casing::Ascii, lines_of(s1)) {
        let a2 = assemble_lines(Casing::Ascii, lines_of(s2))->Ok_0;
        lemma_resolve_alike(a1.program, a2.program, a1.labels, a1.refs);
    }
}

} // verus!
