use lau_bytecode::compiler::{decode_mnemonic, Mnemonic};
use lau_bytecode::text::{decimal_text, number_literal_ok, parse_i16_text};
use lau_bytecode::vm::Reply;
use lau_bytecode::{
    apply_offset, fibonacci_program, parse_u8, thermostat_program, BinaryOp, Bytecode,
    Compiler, Numeric, Opcode, Request, StepResult, UnaryOp, VmState,
};

/// The machine's values as agent programs use them: `f64`.
struct F64;

impl Numeric<f64> for F64 {
    fn parse(&self, literal: &String) -> f64 {
        literal.parse().expect("the assembler checked the literal")
    }

    fn binary(&self, op: BinaryOp, a: f64, b: f64) -> f64 {
        let truth = |c: bool| if c { 1.0 } else { 0.0 };
        match op {
            BinaryOp::Add => a + b,
            BinaryOp::Sub => a - b,
            BinaryOp::Mul => a * b,
            BinaryOp::Lt => truth(a < b),
            BinaryOp::Gt => truth(a > b),
            BinaryOp::Eq => truth((a - b).abs() < f64::EPSILON),
            BinaryOp::And => truth(a != 0.0 && b != 0.0),
            BinaryOp::Or => truth(a != 0.0 || b != 0.0),
        }
    }

    fn divide(&self, a: f64, b: f64) -> Option<f64> {
        if b == 0.0 {
            None
        } else {
            Some(a / b)
        }
    }

    fn unary(&self, op: UnaryOp, v: f64) -> f64 {
        match op {
            UnaryOp::Neg => -v,
            UnaryOp::Not => {
                if v == 0.0 {
                    1.0
                } else {
                    0.0
                }
            }
        }
    }

    fn is_zero(&self, v: f64) -> bool {
        v == 0.0
    }

    fn format(&self, v: f64) -> String {
        format!("{v}")
    }
    // The host's values are its answers.
    fn parse_value(&self, literal: String) -> f64 {
        self.parse(&literal)
    }

    fn binary_value(&self, op: BinaryOp, a: f64, b: f64) -> f64 {
        self.binary(op, a, b)
    }

    fn quotient_value(&self, a: f64, b: f64) -> Option<f64> {
        self.divide(a, b)
    }

    fn unary_value(&self, op: UnaryOp, v: f64) -> f64 {
        self.unary(op, v)
    }

    fn is_zero_value(&self, v: f64) -> bool {
        self.is_zero(v)
    }

    fn format_value(&self, v: f64) -> String {
        self.format(v)
    }
}

fn compile(source: &str) -> Result<Bytecode<f64>, String> {
    Compiler::compile(source).map(|bc| bc.load(&F64))
}

fn compile_err(source: &str) -> String {
    Compiler::compile(source).unwrap_err()
}

fn program(ops: &[Opcode<f64>]) -> Bytecode<f64> {
    let mut bc = Bytecode::new();
    for op in ops {
        bc.push(*op);
    }
    bc
}

fn run_error(ops: &[Opcode<f64>]) -> String {
    let bc = program(ops);
    let mut vm = VmState::new(0.0);
    vm.run(&bc, 10, &F64).error.expect("the run fails")
}

// ---- Step errors: one per kind, with the exact message ----

#[test]
fn underflow_message_names_instruction_and_pc() {
    assert_eq!(
        run_error(&[Opcode::Push(1.0), Opcode::Add]),
        "stack underflow on ADD at pc=1"
    );
    assert_eq!(run_error(&[Opcode::Swap]), "stack underflow on SWAP at pc=0");
    assert_eq!(run_error(&[Opcode::VibeSet]), "stack underflow on VIBE_SET at pc=0");
    assert_eq!(run_error(&[Opcode::Jz(1)]), "stack underflow on JZ at pc=0");
    assert_eq!(run_error(&[Opcode::Print]), "stack underflow on PRINT at pc=0");
}

#[test]
fn underflow_with_one_operand_consumes_it() {
    let bc = program(&[Opcode::Push(1.0), Opcode::Sub]);
    let mut vm = VmState::new(0.0);
    let result = vm.run(&bc, 10, &F64);
    assert!(!result.halted);
    assert!(vm.stack.is_empty());
    assert_eq!(vm.pc, 1);
}

#[test]
fn division_by_zero_message() {
    assert_eq!(
        run_error(&[Opcode::Push(1.0), Opcode::Push(0.0), Opcode::Div]),
        "division by zero at pc=2"
    );
}

#[test]
fn bounds_messages() {
    assert_eq!(run_error(&[Opcode::Load(16)]), "local index 16 out of bounds at pc=0");
    assert_eq!(
        run_error(&[Opcode::Push(1.0), Opcode::Store(200)]),
        "local index 200 out of bounds at pc=1"
    );
    assert_eq!(run_error(&[Opcode::Sense(8)]), "sensor channel 8 out of bounds at pc=0");
    assert_eq!(
        run_error(&[Opcode::Push(1.0), Opcode::Act(8)]),
        "actuator channel 8 out of bounds at pc=1"
    );
    assert_eq!(run_error(&[Opcode::Call(99)]), "CALL target 99 out of bounds at pc=0");
}

#[test]
fn jump_messages() {
    assert_eq!(
        run_error(&[Opcode::Push(1.0), Opcode::Jmp(999)]),
        "jump target 1000 out of bounds (len=2) at pc=1"
    );
    let wrapped = usize::MAX - 3;
    assert_eq!(
        run_error(&[Opcode::Push(1.0), Opcode::Jmp(-5)]),
        format!("jump target {wrapped} out of bounds (len=2) at pc=1")
    );
}

#[test]
fn run_messages() {
    let bc = program(&[Opcode::Jmp(0)]);
    let mut vm = VmState::new(0.0);
    let result = vm.run(&bc, 100, &F64);
    assert_eq!(result.error.unwrap(), "max steps (100) exceeded at pc=0");
    assert_eq!(vm.tick, 100);

    let mut vm = VmState::new(0.0);
    let result = vm.run(&bc, 0, &F64);
    assert_eq!(result.error.unwrap(), "max_steps is zero");
    assert_eq!(vm.tick, 0);
}

#[test]
fn failed_step_keeps_pc_and_counts_tick() {
    let bc = program(&[Opcode::Push(1.0), Opcode::Push(0.0), Opcode::Div]);
    let mut vm = VmState::new(0.0);
    let result = vm.run(&bc, 10, &F64);
    assert_eq!(result.steps, 3);
    assert_eq!(vm.pc, 2);
    assert_eq!(vm.tick, 3);
    assert!(vm.stack.is_empty());
}

// ---- Laws on concrete values ----

#[test]
fn halted_machine_stays_as_it_is() {
    let bc = program(&[Opcode::Push(1.0), Opcode::Halt]);
    let mut vm = VmState::new(0.0);
    vm.run(&bc, 10, &F64);
    let (pc, tick, stack) = (vm.pc, vm.tick, vm.stack.clone());
    assert_eq!(vm.step(&bc, &F64), StepResult::Halted);
    assert_eq!(vm.step(&bc, &F64), StepResult::Halted);
    assert_eq!((vm.pc, vm.tick, vm.stack.clone()), (pc, tick, stack));
}

#[test]
fn sensors_are_never_written() {
    let bc = compile(thermostat_program()).unwrap();
    let mut vm = VmState::new(0.0);
    vm.sensors = [15.0, 1.0, 2.0, 3.0, 4.0, 5.0, 6.0, 7.0];
    let before = vm.sensors;
    vm.run(&bc, 100, &F64);
    assert_eq!(vm.sensors, before);
    assert_eq!(vm.actuators[0], 1.0);
}

#[test]
fn tick_counts_executed_instructions() {
    let source = fibonacci_program();
    let bc = compile(source).unwrap();
    let mut with_input = program(&[Opcode::Push(10.0)]);
    for ins in &bc.instructions {
        with_input.push(ins.opcode);
    }
    let mut vm = VmState::new(0.0);
    let result = vm.run(&with_input, 1000, &F64);
    assert!(result.halted);
    assert_eq!(vm.tick, result.steps as u64);
    assert_eq!(result.output, vec!["55"]);
}

#[test]
fn running_past_the_end_halts_without_counting() {
    let bc = program(&[Opcode::Push(1.0)]);
    let mut vm = VmState::new(0.0);
    let result = vm.run(&bc, 10, &F64);
    assert!(result.halted);
    assert_eq!(result.steps, 2);
    assert_eq!(vm.tick, 1);
}

#[test]
fn call_then_ret_comes_back() {
    let bc = program(&[Opcode::Call(2), Opcode::Halt, Opcode::Ret]);
    let mut vm = VmState::new(0.0);
    assert_eq!(vm.step(&bc, &F64), StepResult::Ran);
    assert_eq!(vm.pc, 2);
    assert_eq!(vm.call_stack, vec![1]);
    assert_eq!(vm.step(&bc, &F64), StepResult::Ran);
    assert_eq!(vm.pc, 1);
    assert!(vm.call_stack.is_empty());
    assert!(!vm.halted);
}

#[test]
fn ret_from_main_halts_on_the_next_step() {
    let bc = program(&[Opcode::Ret, Opcode::Push(1.0)]);
    let mut vm = VmState::new(0.0);
    assert_eq!(vm.step(&bc, &F64), StepResult::Ran);
    assert!(vm.halted);
    assert_eq!(vm.step(&bc, &F64), StepResult::Halted);
    assert!(vm.stack.is_empty());
}

#[test]
fn push_then_pop_keeps_the_stack() {
    let bc = program(&[Opcode::Push(3.0), Opcode::Push(9.0), Opcode::Pop, Opcode::Halt]);
    let mut vm = VmState::new(0.0);
    vm.step(&bc, &F64);
    let stack = vm.stack.clone();
    vm.step(&bc, &F64);
    vm.step(&bc, &F64);
    assert_eq!(vm.stack, stack);
    assert_eq!(vm.pc, 3);
}

#[test]
fn binary_pops_b_then_a() {
    let bc = program(&[
        Opcode::Push(5.0),
        Opcode::Push(10.0),
        Opcode::Push(4.0),
        Opcode::Sub,
        Opcode::Halt,
    ]);
    let mut vm = VmState::new(0.0);
    vm.run(&bc, 10, &F64);
    assert_eq!(vm.stack, vec![5.0, 6.0]);
}

#[test]
fn jumps_are_relative_and_calls_absolute() {
    let bc = program(&[Opcode::Jmp(3), Opcode::Halt, Opcode::Halt, Opcode::Jmp(-2)]);
    let mut vm = VmState::new(0.0);
    vm.step(&bc, &F64);
    assert_eq!(vm.pc, 3);
    vm.step(&bc, &F64);
    assert_eq!(vm.pc, 1);
    let bc = program(&[Opcode::Halt, Opcode::Call(0)]);
    let mut vm = VmState::new(0.0);
    vm.pc = 1;
    vm.step(&bc, &F64);
    assert_eq!(vm.pc, 0);
    assert_eq!(vm.call_stack, vec![2]);
}

#[test]
fn discriminants_tell_kinds_apart() {
    let all: Vec<Opcode<f64>> = vec![
        Opcode::Push(0.0),
        Opcode::Dup,
        Opcode::Pop,
        Opcode::Swap,
        Opcode::Add,
        Opcode::Sub,
        Opcode::Mul,
        Opcode::Div,
        Opcode::Neg,
        Opcode::Load(0),
        Opcode::Store(0),
        Opcode::Jmp(0),
        Opcode::Jz(0),
        Opcode::Jnz(0),
        Opcode::Call(0),
        Opcode::Ret,
        Opcode::Lt,
        Opcode::Gt,
        Opcode::Eq,
        Opcode::And,
        Opcode::Or,
        Opcode::Not,
        Opcode::Print,
        Opcode::Halt,
        Opcode::VibeGet,
        Opcode::VibeSet,
        Opcode::Sense(0),
        Opcode::Act(0),
    ];
    let mut codes: Vec<u8> = all.iter().map(|op| op.discriminant()).collect();
    codes.sort();
    codes.dedup();
    assert_eq!(codes.len(), 28);
    assert_eq!(Opcode::<f64>::Jz(5).discriminant(), Opcode::<f64>::Jz(-7).discriminant());
    assert_eq!(Opcode::<f64>::Neg.discriminant(), 0x14);
    assert_eq!(Opcode::<f64>::Ret.discriminant(), 0x34);
    assert_eq!(Opcode::<f64>::Print.discriminant(), 0x60);
    assert_eq!(Opcode::<f64>::Act(3).discriminant(), 0x81);
}

#[test]
fn reset_clears_all_state() {
    let mut vm = VmState::new(0.0);
    vm.sensors[2] = 7.0;
    vm.actuators[3] = 8.0;
    vm.locals[4] = 9.0;
    vm.vibe = 0.5;
    vm.output.push("x".to_string());
    vm.call_stack.push(3);
    vm.reset(0.0);
    assert_eq!(vm.sensors, [0.0; 8]);
    assert_eq!(vm.actuators, [0.0; 8]);
    assert_eq!(vm.locals, [0.0; 16]);
    assert_eq!(vm.vibe, 0.0);
    assert!(vm.output.is_empty());
    assert!(vm.call_stack.is_empty());
}

#[test]
fn new_machine_is_zeroed() {
    let vm = VmState::new(-1.0);
    assert_eq!(vm.locals, [-1.0; 16]);
    assert_eq!(vm.sensors, [-1.0; 8]);
    assert_eq!(vm.actuators, [-1.0; 8]);
    assert_eq!(vm.vibe, -1.0);
    assert!(vm.call_stack.is_empty());
    assert!(vm.output.is_empty());
}

// ---- Host requests ----

#[test]
fn request_names_the_operands() {
    let bc = program(&[Opcode::Push(3.0), Opcode::Push(4.0), Opcode::Add]);
    let mut vm = VmState::new(0.0);
    assert_eq!(vm.request(&bc), None);
    vm.step(&bc, &F64);
    vm.step(&bc, &F64);
    assert_eq!(vm.request(&bc), Some(Request::Binary(BinaryOp::Add, 3.0, 4.0)));
    let r = vm.step_with_reply(&bc, Some(Reply::Value(99.0)));
    assert_eq!(r, StepResult::Ran);
    assert_eq!(vm.stack, vec![99.0]);
}

#[test]
fn step_with_reply_takes_the_zero_test() {
    let bc = program(&[Opcode::Push(5.0), Opcode::Jz(2), Opcode::Halt, Opcode::Halt]);
    let mut vm = VmState::new(0.0);
    vm.step(&bc, &F64);
    assert_eq!(vm.request(&bc), Some(Request::Test(5.0)));
    vm.step_with_reply(&bc, Some(Reply::Zero(true)));
    assert_eq!(vm.pc, 3);
}

#[test]
fn divide_request_and_zero_divisor() {
    let bc = program(&[Opcode::Push(8.0), Opcode::Push(2.0), Opcode::Div]);
    let mut vm = VmState::new(0.0);
    vm.step(&bc, &F64);
    vm.step(&bc, &F64);
    assert_eq!(vm.request(&bc), Some(Request::Divide(8.0, 2.0)));
    let r = vm.step_with_reply(&bc, Some(Reply::Quotient(None)));
    assert_eq!(r, StepResult::Error("division by zero at pc=2".to_string()));
}

// ---- Listing ----

#[test]
fn listing_lines_are_right_aligned() {
    let bc = program(&[Opcode::Push(1.0), Opcode::Jz(-3), Opcode::Load(15), Opcode::VibeGet]);
    let listing = bc.disassemble(&F64);
    assert_eq!(listing, vec!["   0:  PUSH 1", "   1:  JZ -3", "   2:  LOAD 15", "   3:  VIBE_GET"]);
    let mut long = Bytecode::<f64>::new();
    for _ in 0..1001 {
        long.push(Opcode::Halt);
    }
    let listing = long.disassemble(&F64);
    assert_eq!(listing[10], "  10:  HALT");
    assert_eq!(listing[100], " 100:  HALT");
    assert_eq!(listing[1000], "1000:  HALT");
}

#[test]
fn push_records_index_as_line() {
    let bc = program(&[Opcode::Dup, Opcode::Dup, Opcode::Dup]);
    let lines: Vec<u32> = bc.instructions.iter().map(|i| i.line).collect();
    assert_eq!(lines, vec![0, 1, 2]);
}

#[test]
fn decimal_rendering() {
    assert_eq!(decimal_text(0), "0");
    assert_eq!(decimal_text(1234567890), "1234567890");
    assert_eq!(decimal_text(u64::MAX), "18446744073709551615");
}

// ---- Assembler ----

#[test]
fn mnemonics_and_labels_ignore_case() {
    let bc = Compiler::compile("Loop:\n  push 1\n  jMp @LOOP\n").unwrap();
    assert!(matches!(bc.instructions[0].opcode, Opcode::Push(ref s) if s == "1"));
    assert!(matches!(bc.instructions[1].opcode, Opcode::Jmp(-1)));
    assert_eq!(bc.instructions[1].line, 3);
}

#[test]
fn label_offsets_land_on_labels() {
    let source = "start:\nPUSH 1\nJZ @end\nJMP @start\nend:\nHALT\nCALL @end";
    let bc = compile(source).unwrap();
    assert!(matches!(bc.instructions[1].opcode, Opcode::Jz(2)));
    assert!(matches!(bc.instructions[2].opcode, Opcode::Jmp(-2)));
    assert!(matches!(bc.instructions[4].opcode, Opcode::Call(3)));
    for (i, ins) in bc.instructions.iter().enumerate() {
        if let Opcode::Jz(o) | Opcode::Jmp(o) = ins.opcode {
            assert_eq!(apply_offset(i, o, bc.len()), Ok(if i == 1 { 3 } else { 0 }));
        }
    }
}

#[test]
fn label_at_the_end_points_past_the_program() {
    let bc = Compiler::compile("JMP @end\nend:").unwrap();
    assert_eq!(bc.len(), 1);
    assert!(matches!(bc.instructions[0].opcode, Opcode::Jmp(1)));
}

#[test]
fn numeric_operands() {
    let bc = Compiler::compile("CALL 300\nCALL -1\nJMP -32768\nJNZ +7\nSENS 3\nSTORE 0 ; acc").unwrap();
    assert!(matches!(bc.instructions[0].opcode, Opcode::Call(44)));
    assert!(matches!(bc.instructions[1].opcode, Opcode::Call(255)));
    assert!(matches!(bc.instructions[2].opcode, Opcode::Jmp(i16::MIN)));
    assert!(matches!(bc.instructions[3].opcode, Opcode::Jnz(7)));
    assert!(matches!(bc.instructions[4].opcode, Opcode::Sense(3)));
    assert!(matches!(bc.instructions[5].opcode, Opcode::Store(0)));
}

#[test]
fn compile_error_messages() {
    assert_eq!(compile_err("loop:\nloop:\nHALT"), "line 2: duplicate label 'loop'");
    assert_eq!(compile_err("Loop :\nLOOP:"), "line 2: duplicate label 'loop'");
    assert_eq!(compile_err("JMP @nonexistent\nHALT"), "line 1: undefined label '@nonexistent'");
    assert_eq!(compile_err("FOOBAR 42"), "line 1: unknown opcode 'FOOBAR'");
    assert_eq!(compile_err("\n# c\n  bogus x"), "line 3: unknown opcode 'BOGUS'");
    assert_eq!(compile_err("jmp"), "line 1: missing operand for JMP");
    assert_eq!(compile_err("JZ x1"), "line 1: invalid operand 'x1' for JZ");
    assert_eq!(compile_err("JMP 32768"), "line 1: invalid operand '32768' for JMP");
    assert_eq!(compile_err("PUSH"), "line 1: expected numeric operand");
    assert_eq!(compile_err("PUSH abc"), "line 1: invalid number 'abc'");
    assert_eq!(compile_err("LOAD"), "line 1: expected integer operand");
    assert_eq!(compile_err("LOAD x"), "line 1: invalid integer 'x'");
    assert_eq!(compile_err("LOAD 300"), "line 1: invalid integer '300'");
    assert_eq!(compile_err("LOAD 16"), "line 1: value 16 exceeds max 15");
    assert_eq!(compile_err("ACT 8"), "line 1: value 8 exceeds max 7");
}

#[test]
fn first_error_wins() {
    assert_eq!(compile_err("PUSH x\nFOO"), "line 1: invalid number 'x'");
    assert_eq!(compile_err("JMP @nowhere\nFOO"), "line 2: unknown opcode 'FOO'");
    assert_eq!(compile_err("JMP @a\nJMP @b"), "line 1: undefined label '@a'");
}

#[test]
fn call_label_beyond_a_byte() {
    let mut source = String::from("CALL @far\n");
    for _ in 0..300 {
        source.push_str("PUSH 1\n");
    }
    source.push_str("far:\nHALT\n");
    assert_eq!(compile_err(&source), "line 1: CALL target 301 exceeds u8 range");
}

#[test]
fn number_literals() {
    for ok in ["1", "1e5", ".5", "5.", "-inf", "+NaN", "Infinity", "1E-3", "0.25e+2", "-0"] {
        assert!(number_literal_ok(ok), "{ok}");
        assert!(ok.parse::<f64>().is_ok(), "{ok}");
        assert!(Compiler::compile(&format!("PUSH {ok}")).is_ok(), "{ok}");
    }
    for bad in [".", "1e", "e5", "1.2.3", "0x10", "1_000", "+", "inff", "--1"] {
        assert!(!number_literal_ok(bad), "{bad}");
        assert!(bad.parse::<f64>().is_err(), "{bad}");
    }
}

#[test]
fn integer_operands() {
    assert_eq!(parse_u8(Some(&"7"), 3, 15), Ok(7));
    assert_eq!(parse_u8(Some(&"+7"), 3, 15), Ok(7));
    assert_eq!(parse_u8(Some(&"007"), 3, 15), Ok(7));
    assert_eq!(parse_u8(Some(&"-1"), 3, 15), Err("line 3: invalid integer '-1'".to_string()));
    assert_eq!(parse_u8(Some(&"255"), 9, 255), Ok(255));
    assert_eq!(parse_u8(Some(&"256"), 9, 255), Err("line 9: invalid integer '256'".to_string()));
    assert_eq!(parse_u8(None, 3, 15), Err("line 3: expected integer operand".to_string()));
    assert_eq!(parse_i16_text("-32768"), Some(i16::MIN));
    assert_eq!(parse_i16_text("-32769"), None);
    assert_eq!(parse_i16_text("-"), None);
    assert_eq!(parse_i16_text(""), None);
}

#[test]
fn apply_offset_wraps_and_checks() {
    assert_eq!(apply_offset(5, -2, 10), Ok(3));
    assert_eq!(apply_offset(5, 4, 10), Ok(9));
    assert_eq!(
        apply_offset(5, 5, 10),
        Err("jump target 10 out of bounds (len=10) at pc=5".to_string())
    );
    assert_eq!(
        apply_offset(0, -1, 10),
        Err(format!("jump target {} out of bounds (len=10) at pc=0", usize::MAX))
    );
}

#[test]
fn load_keeps_lines_and_turns_literals_into_values() {
    let bc = Compiler::compile("# header\nPUSH 2.5\nHALT").unwrap();
    let loaded = bc.load(&F64);
    assert_eq!(loaded.len(), 2);
    assert!(matches!(loaded.instructions[0].opcode, Opcode::Push(v) if v == 2.5));
    assert_eq!(loaded.instructions[0].line, 2);
    assert_eq!(loaded.instructions[1].line, 3);
}

#[test]
fn readme_countdown_underflows_at_sub() {
    let source = "\
    PUSH 0
    STORE 0       ; accumulator
    PUSH 5        ; counter
loop:
    DUP
    PUSH 0
    EQ
    JNZ @done
    LOAD 0
    ADD
    STORE 0
    PUSH 1
    SUB
    JMP @loop
done:
    LOAD 0
    PRINT          ; prints 15 (5+4+3+2+1)
    HALT
";
    let bc = compile(source).unwrap();
    let mut vm = VmState::new(0.0);
    let result = vm.run(&bc, 1000, &F64);
    // STORE pops the accumulator's sum, so the SUB that follows finds one value only.
    assert!(result.output.is_empty());
    assert_eq!(result.error, Some("stack underflow on SUB at pc=11".to_string()));
    assert_eq!(vm.locals[0], 5.0);
}

#[test]
fn mnemonic_table() {
    assert_eq!(decode_mnemonic("SENS"), Some(Mnemonic::Sense));
    assert_eq!(decode_mnemonic("VIBE_SET"), Some(Mnemonic::VibeSet));
    assert_eq!(decode_mnemonic("push"), None);
}

#[test]
fn run_errors_name_the_pc_where_the_machine_stopped() {
    let failing = [
        vec![Opcode::Push(1.0), Opcode::Div],
        vec![Opcode::Push(1.0), Opcode::Push(0.0), Opcode::Div],
        vec![Opcode::Load(16)],
        vec![Opcode::Push(0.0), Opcode::Jmp(-5)],
        vec![Opcode::Jmp(0)],
    ];
    for ops in failing {
        let bc = program(&ops);
        let mut vm = VmState::new(0.0);
        let result = vm.run(&bc, 7, &F64);
        assert!(!result.halted);
        let error = result.error.expect("the run does not halt");
        assert!(error.ends_with(&format!(" at pc={}", vm.pc)), "{error}");
    }
}

#[test]
fn run_reports_an_error_exactly_when_it_does_not_halt() {
    for ops in [vec![Opcode::Halt], vec![Opcode::Push(2.0)], vec![Opcode::Pop], vec![Opcode::Jmp(0)]] {
        let bc = program(&ops);
        let mut vm = VmState::new(0.0);
        let result = vm.run(&bc, 3, &F64);
        assert!(1 <= result.steps && result.steps <= 3);
        assert_eq!(result.halted, result.error.is_none());
    }
}

#[test]
fn compile_errors_name_a_line_or_a_label() {
    assert_eq!(compile_err("PUSH 1\n\n  FROB 2"), "line 3: unknown opcode 'FROB'");
    assert_eq!(compile_err("top:\nJMP @top\nTOP:"), "line 3: duplicate label 'top'");
    assert_eq!(compile_err("HALT\n\nJZ @nowhere\nHALT"), "line 3: undefined label '@nowhere'");
}

#[test]
fn default_machine_is_fresh() {
    let vm: VmState<f64> = VmState::default();
    assert!(vm.stack.is_empty() && vm.call_stack.is_empty() && vm.output.is_empty());
    assert_eq!((vm.pc, vm.tick, vm.halted, vm.vibe), (0, 0, false, 0.0));
    assert_eq!(vm.locals, [0.0; 16]);
    assert_eq!(vm.sensors, [0.0; 8]);
    assert_eq!(vm.actuators, [0.0; 8]);
}

#[test]
fn program_text_ignores_case() {
    let lower = Compiler::compile("loop:\n  push 1e5\n  sens 3\n  jnz @loop\n  call @Loop\n  halt").unwrap();
    let upper = Compiler::compile("LOOP:\n  PUSH 1E5\n  SENSE 3\n  JNZ @LOOP\n  CALL @loop\n  HALT").unwrap();
    assert_eq!(lower.len(), upper.len());
    for (a, b) in lower.instructions.iter().zip(upper.instructions.iter()) {
        assert_eq!(a.line, b.line);
        match (&a.opcode, &b.opcode) {
            (Opcode::Push(x), Opcode::Push(y)) => assert_eq!(x.to_lowercase(), y.to_lowercase()),
            (x, y) => assert_eq!(x, y),
        }
    }
    assert!(matches!(lower.instructions[2].opcode, Opcode::Jnz(-2)));
    assert!(matches!(lower.instructions[3].opcode, Opcode::Call(0)));
    assert!(Compiler::compile("Load 16").is_err() && Compiler::compile("LOAD 16").is_err());
}

#[test]
fn instruction_text_assembles_back() {
    let ops = [
        Opcode::Push(2.5),
        Opcode::Push(-1e-3),
        Opcode::Dup,
        Opcode::Pop,
        Opcode::Swap,
        Opcode::Add,
        Opcode::Sub,
        Opcode::Mul,
        Opcode::Div,
        Opcode::Neg,
        Opcode::Load(15),
        Opcode::Store(0),
        Opcode::Jmp(-32768),
        Opcode::Jz(7),
        Opcode::Jnz(-1),
        Opcode::Call(255),
        Opcode::Ret,
        Opcode::Lt,
        Opcode::Gt,
        Opcode::Eq,
        Opcode::And,
        Opcode::Or,
        Opcode::Not,
        Opcode::Print,
        Opcode::Halt,
        Opcode::VibeGet,
        Opcode::VibeSet,
        Opcode::Sense(7),
        Opcode::Act(0),
    ];
    for op in ops {
        let text = op.to_text(&F64);
        let bc = compile(&text).unwrap();
        assert_eq!(bc.len(), 1, "{text}");
        assert_eq!(bc.instructions[0].opcode, op, "{text}");
        assert_eq!(bc.instructions[0].line, 1);
    }
}

#[test]
fn fibonacci_program_prints_fib_n() {
    let bc = compile(fibonacci_program()).unwrap();
    for (n, fib) in [(0.0, "0"), (1.0, "1"), (2.0, "1"), (7.0, "13"), (12.0, "144")] {
        let mut with_input = program(&[Opcode::Push(n)]);
        for ins in &bc.instructions {
            with_input.push(ins.opcode);
        }
        let mut vm = VmState::new(0.0);
        let result = vm.run(&with_input, 1000, &F64);
        assert!(result.halted);
        assert_eq!(result.output, vec![fib]);
    }
}

#[test]
fn jumps_by_the_most_negative_offset() {
    assert_eq!(apply_offset(40000, i16::MIN, 50000), Ok(7232));
    let wrapped = usize::MAX - 32767;
    assert_eq!(
        apply_offset(0, i16::MIN, 10),
        Err(format!("jump target {wrapped} out of bounds (len=10) at pc=0"))
    );
    // An untaken branch by -32768 runs on; a taken one fails out of bounds.
    let bc = program(&[Opcode::Push(1.0), Opcode::Jz(i16::MIN), Opcode::Push(0.0), Opcode::Jz(i16::MIN)]);
    let mut vm = VmState::new(0.0);
    let result = vm.run(&bc, 10, &F64);
    assert_eq!(result.steps, 4);
    assert_eq!(vm.pc, 3);
    let wrapped = usize::MAX - 32764;
    assert_eq!(result.error, Some(format!("jump target {wrapped} out of bounds (len=4) at pc=3")));
}
