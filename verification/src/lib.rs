//! A small stack-based bytecode machine for agent programs: an assembler
//! from text with labels, and a machine with locals, sensors, actuators and
//! a "vibe" register.
//!
//! The machine is generic in its value type: it decides which values an
//! instruction works on, where results go and how control flows, while the
//! host supplies the arithmetic on values through [`numeric::Numeric`].

pub mod case;
pub mod compiler;
pub mod numeric;
pub mod program;
pub mod programs;
pub mod reassembly;
pub mod text;
pub mod vm;

pub use compiler::{parse_u8, Compiler};
pub use numeric::{BinaryOp, Numeric, UnaryOp};
pub use program::{Bytecode, Instruction, Opcode};
pub use programs::{conservation_program, fibonacci_program, thermostat_program};
pub use vm::{apply_offset, Reply, Request, StepResult, VmResult, VmState};
