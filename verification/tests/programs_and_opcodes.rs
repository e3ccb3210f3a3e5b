use lau_bytecode::{
    conservation_program, fibonacci_program, thermostat_program, BinaryOp, Bytecode, Compiler,
    Numeric, Opcode, StepResult, UnaryOp, VmState,
};

/// The machine's values as agent programs use them: `f64`.
struct F64;

impl Numeric<f64> for F64 {
    fn parse(&self, literal: &String) -> f64 {
        literal.parse().expect("the assembler checked the literal")
    }

    fn binary(&self, op: BinaryOp, a: f64, b: f64) -> f64 {
        let truth = |c: bool| if c { 1.0 } else { 0.0 };
        match op {
            BinaryOp::Add => a + b,
            BinaryOp::Sub => a - b,
            BinaryOp::Mul => a * b,
            BinaryOp::Lt => truth(a < b),
            BinaryOp::Gt => truth(a > b),
            BinaryOp::Eq => truth((a - b).abs() < f64::EPSILON),
            BinaryOp::And => truth(a != 0.0 && b != 0.0),
            BinaryOp::Or => truth(a != 0.0 || b != 0.0),
        }
    }

    fn divide(&self, a: f64, b: f64) -> Option<f64> {
        if b == 0.0 {
            None
        } else {
            Some(a / b)
        }
    }

    fn unary(&self, op: UnaryOp, v: f64) -> f64 {
        match op {
            UnaryOp::Neg => -v,
            UnaryOp::Not => {
                if v == 0.0 {
                    1.0
                } else {
                    0.0
                }
            }
        }
    }

    fn is_zero(&self, v: f64) -> bool {
        v == 0.0
    }

    fn format(&self, v: f64) -> String {
        format!("{v}")
    }
    // The host's values are its answers.
    fn parse_value(&self, literal: String) -> f64 {
        self.parse(&literal)
    }

    fn binary_value(&self, op: BinaryOp, a: f64, b: f64) -> f64 {
        self.binary(op, a, b)
    }

    fn quotient_value(&self, a: f64, b: f64) -> Option<f64> {
        self.divide(a, b)
    }

    fn unary_value(&self, op: UnaryOp, v: f64) -> f64 {
        self.unary(op, v)
    }

    fn is_zero_value(&self, v: f64) -> bool {
        self.is_zero(v)
    }

    fn format_value(&self, v: f64) -> String {
        self.format(v)
    }
}

fn compile(source: &str) -> Result<Bytecode<f64>, String> {
    Compiler::compile(source).map(|bc| bc.load(&F64))
}

fn new_vm() -> VmState<f64> {
    VmState::new(0.0)
}

// ---- Opcode discriminant ----
#[test]
fn test_opcode_discriminant_push() {
    assert_eq!(Opcode::Push(3.0).discriminant(), 0x01);
}

#[test]
fn test_opcode_discriminant_halt() {
    assert_eq!(Opcode::<f64>::Halt.discriminant(), 0xFF);
}

#[test]
fn test_opcode_discriminant_add() {
    assert_eq!(Opcode::<f64>::Add.discriminant(), 0x10);
}

#[test]
fn test_opcode_discriminant_vibe_get() {
    assert_eq!(Opcode::<f64>::VibeGet.discriminant(), 0x70);
}

#[test]
fn test_opcode_discriminant_sense() {
    assert_eq!(Opcode::<f64>::Sense(0).discriminant(), 0x80);
}

// ---- Opcode text ----
#[test]
fn test_opcode_display_push() {
    assert_eq!(Opcode::Push(1.5).to_text(&F64), "PUSH 1.5");
}

#[test]
fn test_opcode_display_act() {
    assert_eq!(Opcode::<f64>::Act(1).to_text(&F64), "ACT 1");
}

// ---- Bytecode ----
#[test]
fn test_bytecode_new_is_empty() {
    let bc = Bytecode::<f64>::new();
    assert!(bc.is_empty());
    assert_eq!(bc.len(), 0);
}

#[test]
fn test_bytecode_push() {
    let mut bc = Bytecode::new();
    bc.push(Opcode::Push(42.0));
    bc.push(Opcode::Halt);
    assert_eq!(bc.len(), 2);
}

#[test]
fn test_bytecode_disassemble() {
    let mut bc = Bytecode::new();
    bc.push(Opcode::Push(1.0));
    bc.push(Opcode::Push(2.0));
    bc.push(Opcode::Add);
    bc.push(Opcode::Print);
    bc.push(Opcode::Halt);
    let listing = bc.disassemble(&F64);
    assert_eq!(listing.len(), 5);
    assert!(listing[0].contains("PUSH"));
    assert!(listing[2].contains("ADD"));
}

// ---- VmState basics ----
#[test]
fn test_vm_state_new() {
    let vm = new_vm();
    assert!(vm.stack.is_empty());
    assert!(!vm.halted);
    assert_eq!(vm.pc, 0);
    assert_eq!(vm.tick, 0);
}

#[test]
fn test_vm_state_reset() {
    let mut vm = new_vm();
    vm.stack.push(99.0);
    vm.pc = 10;
    vm.halted = true;
    vm.tick = 5;
    vm.reset(0.0);
    assert!(vm.stack.is_empty());
    assert_eq!(vm.pc, 0);
    assert!(!vm.halted);
    assert_eq!(vm.tick, 0);
}

// ---- Individual instructions ----
#[test]
fn test_push_then_pop() {
    let mut bc = Bytecode::new();
    bc.push(Opcode::Push(42.0));
    bc.push(Opcode::Pop);
    bc.push(Opcode::Halt);

    let mut vm = new_vm();
    let result = vm.run(&bc, 10, &F64);
    assert!(result.halted);
    assert!(result.error.is_none());
    assert!(vm.stack.is_empty());
}

#[test]
fn test_add() {
    let mut bc = Bytecode::new();
    bc.push(Opcode::Push(3.0));
    bc.push(Opcode::Push(4.0));
    bc.push(Opcode::Add);
    bc.push(Opcode::Halt);

    let mut vm = new_vm();
    let result = vm.run(&bc, 10, &F64);
    assert!(result.halted);
    assert_eq!(vm.stack.last(), Some(&7.0));
}

#[test]
fn test_sub() {
    let mut bc = Bytecode::new();
    bc.push(Opcode::Push(10.0));
    bc.push(Opcode::Push(3.0));
    bc.push(Opcode::Sub);
    bc.push(Opcode::Halt);

    let mut vm = new_vm();
    vm.run(&bc, 10, &F64);
    assert_eq!(vm.stack.last(), Some(&7.0));
}

#[test]
fn test_mul() {
    let mut bc = Bytecode::new();
    bc.push(Opcode::Push(6.0));
    bc.push(Opcode::Push(7.0));
    bc.push(Opcode::Mul);
    bc.push(Opcode::Halt);

    let mut vm = new_vm();
    vm.run(&bc, 10, &F64);
    assert_eq!(vm.stack.last(), Some(&42.0));
}

#[test]
fn test_div() {
    let mut bc = Bytecode::new();
    bc.push(Opcode::Push(10.0));
    bc.push(Opcode::Push(2.0));
    bc.push(Opcode::Div);
    bc.push(Opcode::Halt);

    let mut vm = new_vm();
    vm.run(&bc, 10, &F64);
    assert_eq!(vm.stack.last(), Some(&5.0));
}

#[test]
fn test_div_by_zero() {
    let mut bc = Bytecode::new();
    bc.push(Opcode::Push(1.0));
    bc.push(Opcode::Push(0.0));
    bc.push(Opcode::Div);

    let mut vm = new_vm();
    let result = vm.run(&bc, 10, &F64);
    assert!(result.error.is_some());
    assert!(result.error.unwrap().contains("division by zero"));
}

#[test]
fn test_neg() {
    let mut bc = Bytecode::new();
    bc.push(Opcode::Push(5.0));
    bc.push(Opcode::Neg);
    bc.push(Opcode::Halt);

    let mut vm = new_vm();
    vm.run(&bc, 10, &F64);
    assert_eq!(vm.stack.last(), Some(&-5.0));
}

#[test]
fn test_dup() {
    let mut bc = Bytecode::new();
    bc.push(Opcode::Push(7.0));
    bc.push(Opcode::Dup);
    bc.push(Opcode::Halt);

    let mut vm = new_vm();
    vm.run(&bc, 10, &F64);
    assert_eq!(vm.stack.len(), 2);
    assert_eq!(vm.stack[0], 7.0);
    assert_eq!(vm.stack[1], 7.0);
}

#[test]
fn test_swap() {
    let mut bc = Bytecode::new();
    bc.push(Opcode::Push(1.0));
    bc.push(Opcode::Push(2.0));
    bc.push(Opcode::Swap);
    bc.push(Opcode::Halt);

    let mut vm = new_vm();
    vm.run(&bc, 10, &F64);
    assert_eq!(vm.stack[0], 2.0);
    assert_eq!(vm.stack[1], 1.0);
}

#[test]
fn test_load_store() {
    let mut vm = new_vm();
    let mut bc = Bytecode::new();
    bc.push(Opcode::Push(99.0));
    bc.push(Opcode::Store(0));
    bc.push(Opcode::Load(0));
    bc.push(Opcode::Halt);

    vm.run(&bc, 10, &F64);
    assert_eq!(vm.stack.last(), Some(&99.0));
    assert_eq!(vm.locals[0], 99.0);
}

// ---- Jumps ----
#[test]
fn test_jmp_forward() {
    let mut bc = Bytecode::new();
    bc.push(Opcode::Push(1.0)); // 0
    bc.push(Opcode::Jmp(2)); // 1 -> jump to 3
    bc.push(Opcode::Push(99.0)); // 2 (skipped)
    bc.push(Opcode::Halt); // 3

    let mut vm = new_vm();
    let result = vm.run(&bc, 10, &F64);
    assert!(result.halted);
    assert_eq!(vm.stack.last(), Some(&1.0));
}

#[test]
fn test_jz_jumps_when_zero() {
    let mut bc = Bytecode::new();
    bc.push(Opcode::Push(0.0)); // 0
    bc.push(Opcode::Jz(2)); // 1: pc=1, offset=2 -> pc=3 (Halt)
    bc.push(Opcode::Push(99.0)); // 2 (skipped)
    bc.push(Opcode::Halt); // 3

    let mut vm = new_vm();
    let result = vm.run(&bc, 10, &F64);
    assert!(result.halted);
    // JZ pops the 0.0, so the stack is empty
    assert!(vm.stack.is_empty());
}

#[test]
fn test_jz_does_not_jump_when_nonzero() {
    let mut bc = Bytecode::new();
    bc.push(Opcode::Push(1.0)); // 0
    bc.push(Opcode::Jz(2)); // 1 -> stays
    bc.push(Opcode::Push(99.0)); // 2
    bc.push(Opcode::Halt); // 3

    let mut vm = new_vm();
    vm.run(&bc, 10, &F64);
    assert_eq!(vm.stack.last(), Some(&99.0));
}

#[test]
fn test_jnz_jumps_when_nonzero() {
    let mut bc = Bytecode::new();
    bc.push(Opcode::Push(1.0)); // 0
    bc.push(Opcode::Jnz(1)); // 1: pc=1, offset=1 -> pc=2
    bc.push(Opcode::Push(42.0)); // 2
    bc.push(Opcode::Halt); // 3

    let mut vm = new_vm();
    let result = vm.run(&bc, 10, &F64);
    assert!(result.halted);
    assert_eq!(vm.stack.last(), Some(&42.0));
}

// ---- Comparison ----
fn run_binary(a: f64, b: f64, op: Opcode<f64>) -> Option<f64> {
    let mut bc = Bytecode::new();
    bc.push(Opcode::Push(a));
    bc.push(Opcode::Push(b));
    bc.push(op);
    bc.push(Opcode::Halt);
    let mut vm = new_vm();
    vm.run(&bc, 10, &F64);
    vm.stack.last().copied()
}

#[test]
fn test_lt_true() {
    assert_eq!(run_binary(1.0, 2.0, Opcode::Lt), Some(1.0));
}

#[test]
fn test_lt_false() {
    assert_eq!(run_binary(3.0, 2.0, Opcode::Lt), Some(0.0));
}

#[test]
fn test_gt_true() {
    assert_eq!(run_binary(5.0, 3.0, Opcode::Gt), Some(1.0));
}

#[test]
fn test_eq_true() {
    assert_eq!(run_binary(42.0, 42.0, Opcode::Eq), Some(1.0));
}

#[test]
fn test_eq_false() {
    assert_eq!(run_binary(1.0, 2.0, Opcode::Eq), Some(0.0));
}

// ---- Logical ----
#[test]
fn test_and_true() {
    assert_eq!(run_binary(1.0, 5.0, Opcode::And), Some(1.0));
}

#[test]
fn test_and_false() {
    assert_eq!(run_binary(1.0, 0.0, Opcode::And), Some(0.0));
}

#[test]
fn test_or_true() {
    assert_eq!(run_binary(0.0, 3.0, Opcode::Or), Some(1.0));
}

#[test]
fn test_or_false() {
    assert_eq!(run_binary(0.0, 0.0, Opcode::Or), Some(0.0));
}

#[test]
fn test_not_zero() {
    let mut bc = Bytecode::new();
    bc.push(Opcode::Push(0.0));
    bc.push(Opcode::Not);
    bc.push(Opcode::Halt);

    let mut vm = new_vm();
    vm.run(&bc, 10, &F64);
    assert_eq!(vm.stack.last(), Some(&1.0));
}

#[test]
fn test_not_nonzero() {
    let mut bc = Bytecode::new();
    bc.push(Opcode::Push(3.0));
    bc.push(Opcode::Not);
    bc.push(Opcode::Halt);

    let mut vm = new_vm();
    vm.run(&bc, 10, &F64);
    assert_eq!(vm.stack.last(), Some(&0.0));
}

// ---- Print ----
#[test]
fn test_print() {
    let mut bc = Bytecode::new();
    bc.push(Opcode::Push(1.5));
    bc.push(Opcode::Print);
    bc.push(Opcode::Halt);

    let mut vm = new_vm();
    let result = vm.run(&bc, 10, &F64);
    assert!(result.halted);
    assert_eq!(result.output, vec!["1.5"]);
}

// ---- Vibe ----
#[test]
fn test_vibe_get_set() {
    let mut bc = Bytecode::new();
    bc.push(Opcode::Push(0.75));
    bc.push(Opcode::VibeSet);
    bc.push(Opcode::VibeGet);
    bc.push(Opcode::Print);
    bc.push(Opcode::Halt);

    let mut vm = new_vm();
    let result = vm.run(&bc, 10, &F64);
    assert!(result.halted);
    assert_eq!(vm.vibe, 0.75);
    assert_eq!(result.output, vec!["0.75"]);
}

// ---- Sensors & Actuators ----
#[test]
fn test_sense_act() {
    let mut vm = new_vm();
    vm.sensors[0] = 25.0;
    vm.sensors[1] = 18.0;

    let mut bc = Bytecode::new();
    bc.push(Opcode::Sense(0));
    bc.push(Opcode::Sense(1));
    bc.push(Opcode::Add);
    bc.push(Opcode::Act(0));
    bc.push(Opcode::Halt);

    vm.run(&bc, 10, &F64);
    assert_eq!(vm.actuators[0], 43.0);
}

// ---- Call/Ret ----
#[test]
fn test_call_and_ret() {
    let mut bc = Bytecode::new();
    bc.push(Opcode::Push(10.0)); // 0
    bc.push(Opcode::Call(4)); // 1: call sub at 4, return addr=2
    bc.push(Opcode::Print); // 2: print 20
    bc.push(Opcode::Halt); // 3
    bc.push(Opcode::Push(2.0)); // 4
    bc.push(Opcode::Mul); // 5: 10 * 2 = 20
    bc.push(Opcode::Ret); // 6: return to pc=2

    let mut vm = new_vm();
    let result = vm.run(&bc, 10, &F64);
    assert!(result.halted);
    assert_eq!(result.output, vec!["20"]);
}

#[test]
fn test_ret_from_main_halts() {
    let mut bc = Bytecode::new();
    bc.push(Opcode::Push(1.0));
    bc.push(Opcode::Ret);

    let mut vm = new_vm();
    let result = vm.run(&bc, 10, &F64);
    assert!(result.halted);
    assert_eq!(vm.stack.last(), Some(&1.0));
}

// ---- Stack underflow ----
#[test]
fn test_stack_underflow_add() {
    let mut bc = Bytecode::new();
    bc.push(Opcode::Push(1.0));
    bc.push(Opcode::Add);

    let mut vm = new_vm();
    let result = vm.run(&bc, 10, &F64);
    assert!(result.error.is_some());
    assert!(result.error.as_ref().unwrap().contains("stack underflow"));
}

#[test]
fn test_stack_underflow_pop() {
    let mut bc = Bytecode::new();
    bc.push(Opcode::<f64>::Pop);

    let mut vm = new_vm();
    let result = vm.run(&bc, 10, &F64);
    assert!(result.error.is_some());
}

// ---- Max steps ----
#[test]
fn test_max_steps_exceeded() {
    let mut bc = Bytecode::new();
    bc.push(Opcode::<f64>::Jmp(0));

    let mut vm = new_vm();
    let result = vm.run(&bc, 100, &F64);
    assert!(!result.halted);
    assert!(result.error.is_some());
    assert!(result.error.unwrap().contains("max steps"));
    assert_eq!(result.steps, 100);
}

#[test]
fn test_run_max_steps_zero() {
    let mut bc = Bytecode::new();
    bc.push(Opcode::<f64>::Halt);

    let mut vm = new_vm();
    let result = vm.run(&bc, 0, &F64);
    assert!(result.error.is_some());
    assert_eq!(result.steps, 0);
}

// ---- Step ----
#[test]
fn test_step_halted_returns_halted() {
    let mut vm = new_vm();
    vm.halted = true;
    let bc = Bytecode::new();
    assert_eq!(vm.step(&bc, &F64), StepResult::Halted);
}

#[test]
fn test_step_past_end_halts() {
    let mut vm = new_vm();
    vm.pc = 5;
    let bc = Bytecode::new();
    assert_eq!(vm.step(&bc, &F64), StepResult::Halted);
    assert!(vm.halted);
}

// ---- Compiler ----
#[test]
fn test_compile_simple() {
    let source = "PUSH 42\nPRINT\nHALT";
    let bc = compile(source).unwrap();
    assert_eq!(bc.len(), 3);
    assert!(matches!(bc.instructions[0].opcode, Opcode::Push(v) if v == 42.0));
    assert!(matches!(bc.instructions[1].opcode, Opcode::Print));
    assert!(matches!(bc.instructions[2].opcode, Opcode::Halt));
}

#[test]
fn test_compile_add() {
    let source = "PUSH 3\nPUSH 4\nADD\nPRINT\nHALT";
    let bc = compile(source).unwrap();
    assert_eq!(bc.len(), 5);
}

#[test]
fn test_compile_labels() {
    let source = "\
    JMP @skip
    PUSH 99
skip:
    PUSH 10
    PRINT
    HALT
";
    let bc = compile(source).unwrap();
    assert_eq!(bc.len(), 5);
}

#[test]
fn test_compile_duplicate_label() {
    let source = "loop:\nloop:\nHALT";
    assert!(Compiler::compile(source).is_err());
}

#[test]
fn test_compile_undefined_label() {
    let source = "JMP @nonexistent\nHALT";
    assert!(Compiler::compile(source).is_err());
}

#[test]
fn test_compile_unknown_opcode() {
    let source = "FOOBAR 42";
    assert!(Compiler::compile(source).is_err());
}

#[test]
fn test_compile_with_comments() {
    let source = "# comment\n; also comment\nPUSH 1\nHALT";
    let bc = compile(source).unwrap();
    assert_eq!(bc.len(), 2);
}

#[test]
fn test_compile_all_opcodes() {
    let source = "\
PUSH 1.5
ADD
SUB
MUL
DIV
NEG
LOAD 0
STORE 1
JMP 2
JZ 3
JNZ 4
LT
GT
EQ
AND
OR
NOT
DUP
POP
SWAP
PRINT
HALT
VIBE_GET
VIBE_SET
SENSE 0
ACT 1
CALL 0
RET
";
    let bc = compile(source).unwrap();
    assert_eq!(bc.len(), 28);
}

// ---- Pre-built programs ----
#[test]
fn test_fibonacci() {
    let source = fibonacci_program();
    let bc = compile(source).unwrap();
    let mut bc_with = Bytecode::new();
    bc_with.push(Opcode::Push(10.0));
    for ins in &bc.instructions {
        bc_with.push(ins.opcode);
    }
    let mut vm = new_vm();
    let result = vm.run(&bc_with, 1000, &F64);
    assert!(result.halted, "fib should halt: {:?}", result.error);
    assert_eq!(result.output, vec!["55"], "fib(10)=55");
}

#[test]
fn test_thermostat_cold() {
    let source = thermostat_program();
    let bc = compile(source).unwrap();
    let mut vm = new_vm();
    vm.sensors[0] = 15.0;
    let result = vm.run(&bc, 100, &F64);
    assert!(result.halted);
    assert_eq!(vm.actuators[0], 1.0);
}

#[test]
fn test_thermostat_warm() {
    let source = thermostat_program();
    let bc = compile(source).unwrap();
    let mut vm = new_vm();
    vm.sensors[0] = 25.0;
    vm.run(&bc, 100, &F64);
    assert_eq!(vm.actuators[0], 0.0);
}

#[test]
fn test_conservation() {
    let source = conservation_program();
    let bc = compile(source).unwrap();
    let mut vm = new_vm();
    vm.sensors[0] = 30.0;
    vm.sensors[1] = 40.0;
    vm.sensors[2] = 30.0;
    let result = vm.run(&bc, 100, &F64);
    assert!(result.halted);
    assert_eq!(result.output, vec!["0"]);
}

// ---- Error cases ----
#[test]
fn test_local_out_of_bounds_load() {
    let mut bc = Bytecode::new();
    bc.push(Opcode::<f64>::Load(16));
    let mut vm = new_vm();
    let result = vm.run(&bc, 10, &F64);
    assert!(result.error.is_some());
}

#[test]
fn test_sensor_out_of_bounds() {
    let mut bc = Bytecode::new();
    bc.push(Opcode::<f64>::Sense(8));
    let mut vm = new_vm();
    let result = vm.run(&bc, 10, &F64);
    assert!(result.error.is_some());
}

#[test]
fn test_actuator_out_of_bounds() {
    let mut bc = Bytecode::new();
    bc.push(Opcode::Push(1.0));
    bc.push(Opcode::Act(8));
    let mut vm = new_vm();
    let result = vm.run(&bc, 10, &F64);
    assert!(result.error.is_some());
}

#[test]
fn test_call_out_of_bounds() {
    let mut bc = Bytecode::new();
    bc.push(Opcode::<f64>::Call(99));
    let mut vm = new_vm();
    let result = vm.run(&bc, 10, &F64);
    assert!(result.error.is_some());
}

#[test]
fn test_jmp_out_of_bounds() {
    let mut bc = Bytecode::new();
    bc.push(Opcode::Push(1.0));
    bc.push(Opcode::Jmp(999));
    let mut vm = new_vm();
    let result = vm.run(&bc, 10, &F64);
    assert!(result.error.is_some());
}

// ---- VmResult ----
#[test]
fn test_vm_result_populated() {
    let mut bc = Bytecode::new();
    bc.push(Opcode::Push(42.0));
    bc.push(Opcode::Halt);

    let mut vm = new_vm();
    let result = vm.run(&bc, 10, &F64);
    assert_eq!(result.steps, 2);
    assert!(result.halted);
    assert_eq!(result.stack_top, Some(42.0));
    assert!(result.error.is_none());
}

// ---- Empty program ----
#[test]
fn test_empty_program_halts_immediately() {
    let bc = Bytecode::new();
    let mut vm = new_vm();
    let result = vm.run(&bc, 10, &F64);
    assert!(result.halted);
    assert_eq!(result.steps, 1);
}

// ---- Negative jumps ----
#[test]
fn test_negative_jump_backwards() {
    let mut bc = Bytecode::new();
    bc.push(Opcode::Push(1.0)); // 0: push 1
    bc.push(Opcode::Push(2.0)); // 1: push 2
    bc.push(Opcode::Add); // 2: 1+2=3
    bc.push(Opcode::Halt); // 3

    let mut vm = new_vm();
    vm.run(&bc, 10, &F64);
    assert_eq!(vm.stack.last(), Some(&3.0));
}

// ---- Label compilation execution ----
#[test]
fn test_compile_and_run_with_labels() {
    let source = "\
    PUSH 0
    STORE 0
    PUSH 5
loop:
    DUP
    PUSH 1
    SUB
    DUP
    PUSH 0
    GT
    JNZ @loop
    POP
    HALT
";
    let bc = compile(source).unwrap();
    let mut vm = new_vm();
    let result = vm.run(&bc, 100, &F64);
    // This computes a countdown; the run ends either way
    assert!(result.halted || result.error.is_some());
}
