//! Ready-made agent programs, as program text for [`crate::compiler::Compiler`].

use vstd::prelude::*;

verus! {

/// The text of [`fibonacci_program`].
pub const FIBONACCI_SOURCE: &'static str = "\
# fib(n): n on stack, prints fib(n)
# local[1] = steps left, local[0] = fib(i), local[2] = fib(i + 1)
    STORE 1
    PUSH 0
    STORE 0
    PUSH 1
    STORE 2
loop:
    LOAD 1
    PUSH 0
    EQ
    JNZ @done
    LOAD 0
    LOAD 2
    ADD
    LOAD 2
    STORE 0
    STORE 2
    LOAD 1
    PUSH 1
    SUB
    STORE 1
    JMP @loop
done:
    LOAD 0
    PRINT
    HALT
";

/// The text of [`thermostat_program`].
pub const THERMOSTAT_SOURCE: &'static str = "\
# thermostat: sensor[0] = temp, actuator[0] = heater
    SENSE 0
    PUSH 20.0
    GT
    JZ @heat_on
    PUSH 0
    ACT 0
    HALT
heat_on:
    PUSH 1
    ACT 0
    HALT
";

/// The text of [`conservation_program`].
pub const CONSERVATION_SOURCE: &'static str = "\
# conservation: sum(sensors[0..2]) ≈ 100
    PUSH 0
    STORE 0
    SENSE 0
    STORE 0
    SENSE 1
    LOAD 0
    ADD
    STORE 0
    SENSE 2
    LOAD 0
    ADD
    STORE 0
    PUSH 100.0
    LOAD 0
    SUB
    PRINT
    HALT
";

/// Computes fib(n) iteratively for the `n` on top of the stack (fib(0) = 0,
/// fib(1) = 1): local 1 counts the steps left while locals 0 and 2 hold two
/// consecutive Fibonacci numbers; prints fib(n) and halts.
pub fn fibonacci_program() -> (r: &'static str)
    ensures
        r@ == FIBONACCI_SOURCE@,
{
    FIBONACCI_SOURCE
}

/// Reads the temperature from sensor 0 and sets actuator 0 (the heater) to
/// 1 when it is at most 20, else to 0.
pub fn thermostat_program() -> (r: &'static str)
    ensures
        r@ == THERMOSTAT_SOURCE@,
{
    THERMOSTAT_SOURCE
}

/// Sums sensors 0, 1 and 2 and prints how far the sum falls short of 100.
pub fn conservation_program() -> (r: &'static str)
    ensures
        r@ == CONSERVATION_SOURCE@,
{
    CONSERVATION_SOURCE
}

} // verus!
