//! The machine: its state, one step, and a bounded run.

use vstd::prelude::*;
use vstd::string::*;

use crate::numeric::{BinaryOp, Numeric, UnaryOp};
use crate::program::{Bytecode, Instruction, Opcode};
use crate::text::{decimal, decimal_text};

verus! {

// ---------------------------------------------------------------------------
// Results
// ---------------------------------------------------------------------------

/// What one step did.
#[derive(Debug, Clone, PartialEq)]
pub enum StepResult {
    /// The instruction ran and the machine goes on.
    Ran,
    /// The machine is halted (by `HALT`, or by running past the end).
    Halted,
    /// The instruction failed; the message says why and where.
    Error(String),
}

/// [`StepResult`] with its message as a sequence of characters.
pub enum Outcome {
    Ran,
    Halted,
    Error(Seq<char>),
}

impl StepResult {
    pub open spec fn outcome(&self) -> Outcome {
        match self {
            StepResult::Ran => Outcome::Ran,
            StepResult::Halted => Outcome::Halted,
            StepResult::Error(e) => Outcome::Error(e@),
        }
    }
}

// ---------------------------------------------------------------------------
// Host requests
// ---------------------------------------------------------------------------

/// The value work that an instruction needs from the host.
#[derive(Debug, Clone, PartialEq)]
pub enum Request<V> {
    /// `a op b` (the two operands popped, `b` from the top).
    Binary(BinaryOp, V, V),
    /// `a / b`, or that `b` is zero.
    Divide(V, V),
    /// `op v`.
    Unary(UnaryOp, V),
    /// Whether `v` is zero (for `JZ` and `JNZ`).
    Test(V),
    /// The printed text of `v`.
    Format(V),
}

/// The host's answer to a [`Request`].
#[derive(Debug, Clone, PartialEq)]
pub enum Reply<V> {
    /// The value of a `Binary` or `Unary` request.
    Value(V),
    /// The answer to a `Divide` request: the quotient, or `None` for a zero divisor.
    Quotient(Option<V>),
    /// The answer to a `Test` request.
    Zero(bool),
    /// The answer to a `Format` request.
    Text(String),
}

/// `reply` is of the kind that `request` asks for (and is absent when nothing is asked).
pub open spec fn fits<V>(request: Option<Request<V>>, reply: Option<Reply<V>>) -> bool {
    match request {
        None => reply is None,
        Some(Request::Binary(_, _, _)) => reply matches Some(Reply::Value(_)),
        Some(Request::Unary(_, _)) => reply matches Some(Reply::Value(_)),
        Some(Request::Divide(_, _)) => reply matches Some(Reply::Quotient(_)),
        Some(Request::Test(_)) => reply matches Some(Reply::Zero(_)),
        Some(Request::Format(_)) => reply matches Some(Reply::Text(_)),
    }
}

pub open spec fn value_of<V>(reply: Option<Reply<V>>) -> V {
    match reply {
        Some(Reply::Value(v)) => v,
        _ => vstd::pervasive::arbitrary(),
    }
}

pub open spec fn quotient_of<V>(reply: Option<Reply<V>>) -> Option<V> {
    match reply {
        Some(Reply::Quotient(q)) => q,
        _ => vstd::pervasive::arbitrary(),
    }
}

pub open spec fn zero_of<V>(reply: Option<Reply<V>>) -> bool {
    match reply {
        Some(Reply::Zero(z)) => z,
        _ => vstd::pervasive::arbitrary(),
    }
}

pub open spec fn text_of<V>(reply: Option<Reply<V>>) -> String {
    match reply {
        Some(Reply::Text(t)) => t,
        _ => vstd::pervasive::arbitrary(),
    }
}

/// `numeric`'s answer to `request`.
pub open spec fn reply_of<V, N: Numeric<V>>(numeric: &N, request: Request<V>) -> Reply<V> {
    match request {
        Request::Binary(op, a, b) => Reply::Value(numeric.binary_value(op, a, b)),
        Request::Divide(a, b) => Reply::Quotient(numeric.quotient_value(a, b)),
        Request::Unary(op, v) => Reply::Value(numeric.unary_value(op, v)),
        Request::Test(v) => Reply::Zero(numeric.is_zero_value(v)),
        Request::Format(v) => Reply::Text(numeric.format_value(v)),
    }
}

/// `numeric`'s answer to `request`, if there is a request.
pub open spec fn answer_of<V, N: Numeric<V>>(numeric: &N, request: Option<Request<V>>) -> Option<Reply<V>> {
    match request {
        Some(q) => Some(reply_of(numeric, q)),
        None => None,
    }
}

/// Asks `numeric` what `request` asks for.
pub fn answer<V: Copy, N: Numeric<V>>(numeric: &N, request: Request<V>) -> (r: Reply<V>)
    ensures
        r == reply_of(numeric, request),
        fits(Some(request), Some(r)),
{
    match request {
        Request::Binary(op, a, b) => Reply::Value(numeric.binary(op, a, b)),
        Request::Divide(a, b) => Reply::Quotient(numeric.divide(a, b)),
        Request::Unary(op, v) => Reply::Value(numeric.unary(op, v)),
        Request::Test(v) => Reply::Zero(numeric.is_zero(v)),
        Request::Format(v) => Reply::Text(numeric.format(v)),
    }
}

// ---------------------------------------------------------------------------
// Messages
// ---------------------------------------------------------------------------

pub open spec fn underflow_message(name: Seq<char>, pc: usize) -> Seq<char> {
    "stack underflow on "@ + name + " at pc="@ + decimal(pc as nat)
}

pub open spec fn bounds_message(what: Seq<char>, index: nat, pc: usize) -> Seq<char> {
    what + decimal(index) + " out of bounds at pc="@ + decimal(pc as nat)
}

pub open spec fn division_message(pc: usize) -> Seq<char> {
    "division by zero at pc="@ + decimal(pc as nat)
}

pub open spec fn jump_message(target: usize, len: nat, pc: usize) -> Seq<char> {
    "jump target "@ + decimal(target as nat) + " out of bounds (len="@ + decimal(len) + ") at pc="@
        + decimal(pc as nat)
}

fn underflow_text(name: &str, pc: usize) -> (r: String)
    ensures
        r@ == underflow_message(name@, pc),
{
    let mut s = String::from_str("stack underflow on ");
    s.append(name);
    s.append(" at pc=");
    s.append(decimal_text(pc as u64).as_str());
    s
}

fn bounds_text(what: &str, index: u64, pc: usize) -> (r: String)
    ensures
        r@ == bounds_message(what@, index as nat, pc),
{
    let mut s = String::from_str(what);
    s.append(decimal_text(index).as_str());
    s.append(" out of bounds at pc=");
    s.append(decimal_text(pc as u64).as_str());
    s
}

fn division_text(pc: usize) -> (r: String)
    ensures
        r@ == division_message(pc),
{
    let mut s = String::from_str("division by zero at pc=");
    s.append(decimal_text(pc as u64).as_str());
    s
}

// ---------------------------------------------------------------------------
// Relative jumps
// ---------------------------------------------------------------------------

/// `pc + offset`, wrapping around the range of `usize`.
pub open spec fn jump_target(pc: usize, offset: i16) -> usize {
    let t = pc as int + offset as int;
    if t < 0 {
        (t + usize::MAX + 1) as usize
    } else if t > usize::MAX {
        (t - usize::MAX - 1) as usize
    } else {
        t as usize
    }
}

/// A relative jump goes to `pc + offset` whenever that is an index; a jump
/// below 0 wraps around to the top of the range of `usize`.
pub proof fn lemma_jump_target(pc: usize, offset: i16)
    ensures
        0 <= pc + offset <= usize::MAX ==> jump_target(pc, offset) == pc + offset,
        pc + offset < 0 ==> jump_target(pc, offset) == pc + offset + usize::MAX + 1,
{
}

/// The instruction index reached from `pc` by a relative jump of `offset`,
/// or an error if that index is not below `len`.
pub fn apply_offset(pc: usize, offset: i16, len: usize) -> (r: Result<usize, String>)
    ensures
        match r {
            Ok(t) => t == jump_target(pc, offset) && t < len,
            Err(e) => jump_target(pc, offset) >= len && e@ == jump_message(
                jump_target(pc, offset),
                len as nat,
                pc,
            ),
        },
{
    let new_pc = if offset >= 0 {
        pc.wrapping_add(offset as usize)
    } else {
        pc.wrapping_sub((-(offset as i32)) as usize)
    };
    if new_pc >= len {
        let mut s = String::from_str("jump target ");
        s.append(decimal_text(new_pc as u64).as_str());
        s.append(" out of bounds (len=");
        s.append(decimal_text(len as u64).as_str());
        s.append(") at pc=");
        s.append(decimal_text(pc as u64).as_str());
        return Err(s);
    }
    Ok(new_pc)
}

// ---------------------------------------------------------------------------
// The machine
// ---------------------------------------------------------------------------

/// The state of a machine, as the contracts see it.
#[verifier::ext_equal]
pub struct Machine<V> {
    pub stack: Seq<V>,
    pub locals: Seq<V>,
    pub pc: usize,
    pub vibe: V,
    pub sensors: Seq<V>,
    pub actuators: Seq<V>,
    pub call_stack: Seq<usize>,
    pub halted: bool,
    pub tick: u64,
    pub output: Seq<String>,
}

/// The state of a machine: an operand stack, 16 locals, a program counter,
/// the vibe register, 8 sensor and 8 actuator channels, a call stack of
/// return addresses, the halted flag, a count of executed instructions and
/// the printed output.
#[derive(Debug, Clone)]
pub struct VmState<V> {
    pub stack: Vec<V>,
    pub locals: [V; 16],
    pub pc: usize,
    pub vibe: V,
    pub sensors: [V; 8],
    pub actuators: [V; 8],
    pub call_stack: Vec<usize>,
    pub halted: bool,
    pub tick: u64,
    pub output: Vec<String>,
}

impl<V> View for VmState<V> {
    type V = Machine<V>;

    open spec fn view(&self) -> Machine<V> {
        Machine {
            stack: self.stack@,
            locals: self.locals@,
            pc: self.pc,
            vibe: self.vibe,
            sensors: self.sensors@,
            actuators: self.actuators@,
            call_stack: self.call_stack@,
            halted: self.halted,
            tick: self.tick,
            output: self.output@,
        }
    }
}

/// `n` copies of `v`.
pub open spec fn filled<V>(n: nat, v: V) -> Seq<V> {
    Seq::new(n, |_i: int| v)
}

/// The binary value operation that `op` performs, if it is one.
pub open spec fn binary_of<V>(op: Opcode<V>) -> Option<BinaryOp> {
    match op {
        Opcode::Add => Some(BinaryOp::Add),
        Opcode::Sub => Some(BinaryOp::Sub),
        Opcode::Mul => Some(BinaryOp::Mul),
        Opcode::Lt => Some(BinaryOp::Lt),
        Opcode::Gt => Some(BinaryOp::Gt),
        Opcode::Eq => Some(BinaryOp::Eq),
        Opcode::And => Some(BinaryOp::And),
        Opcode::Or => Some(BinaryOp::Or),
        _ => None,
    }
}

impl<V> Machine<V> {
    /// A fresh machine: empty stacks and output, `pc` and `tick` at 0, not
    /// halted, and every local, the vibe, every sensor and every actuator `zero`.
    pub open spec fn fresh(zero: V) -> Machine<V> {
        Machine {
            stack: Seq::empty(),
            locals: filled(16, zero),
            pc: 0,
            vibe: zero,
            sensors: filled(8, zero),
            actuators: filled(8, zero),
            call_stack: Seq::empty(),
            halted: false,
            tick: 0,
            output: Seq::empty(),
        }
    }

    /// Sixteen locals, eight sensors and eight actuators, as every [`VmState`] has.
    pub open spec fn well_formed(self) -> bool {
        &&& self.locals.len() == 16
        &&& self.sensors.len() == 8
        &&& self.actuators.len() == 8
    }

    /// The stack without its top.
    pub open spec fn popped(self) -> Machine<V> {
        Machine { stack: self.stack.drop_last(), ..self }
    }

    /// The stack with `v` on top.
    pub open spec fn pushed(self, v: V) -> Machine<V> {
        Machine { stack: self.stack.push(v), ..self }
    }

    /// The program counter on the next instruction.
    pub open spec fn advanced(self) -> Machine<V> {
        Machine { pc: (self.pc + 1) as usize, ..self }
    }

    /// The next instruction will be fetched (the machine runs and `pc` is in the program).
    pub open spec fn fetches(self, prog: Seq<Instruction<V>>) -> bool {
        !self.halted && self.pc < prog.len()
    }

    /// The value work that the next step asks of the host, if any.
    pub open spec fn request(self, prog: Seq<Instruction<V>>) -> Option<Request<V>> {
        let n = self.stack.len();
        if !self.fetches(prog) {
            None
        } else {
            let op = prog[self.pc as int].opcode;
            if binary_of(op) is Some && n >= 2 {
                Some(Request::Binary(binary_of(op)->0, self.stack[n - 2], self.stack[n - 1]))
            } else if op is Div && n >= 2 {
                Some(Request::Divide(self.stack[n - 2], self.stack[n - 1]))
            } else if op is Neg && n >= 1 {
                Some(Request::Unary(UnaryOp::Neg, self.stack[n - 1]))
            } else if op is Not && n >= 1 {
                Some(Request::Unary(UnaryOp::Not, self.stack[n - 1]))
            } else if (op is Jz || op is Jnz) && n >= 1 {
                Some(Request::Test(self.stack[n - 1]))
            } else if op is Print && n >= 1 {
                Some(Request::Format(self.stack[n - 1]))
            } else {
                None
            }
        }
    }

    /// A stack underflow on the instruction called `name`.
    pub open spec fn underflow(self, name: Seq<char>) -> (Machine<V>, Outcome) {
        (self, Outcome::Error(underflow_message(name, self.pc)))
    }

    /// A relative jump by `offset` in a program of `len` instructions.
    pub open spec fn jump(self, len: nat, offset: i16) -> (Machine<V>, Outcome) {
        let t = jump_target(self.pc, offset);
        if t < len {
            (Machine { pc: t, ..self }, Outcome::Ran)
        } else {
            (self, Outcome::Error(jump_message(t, len, self.pc)))
        }
    }

    /// A binary value instruction called `name`: pop `b`, pop `a`, push the reply.
    pub open spec fn binary(self, name: Seq<char>, reply: Option<Reply<V>>) -> (Machine<V>, Outcome) {
        let n = self.stack.len();
        if n == 0 {
            self.underflow(name)
        } else if n == 1 {
            self.popped().underflow(name)
        } else {
            (self.popped().popped().pushed(value_of(reply)).advanced(), Outcome::Ran)
        }
    }

    /// A unary value instruction called `name`: pop `v`, push the reply.
    pub open spec fn unary(self, name: Seq<char>, reply: Option<Reply<V>>) -> (Machine<V>, Outcome) {
        if self.stack.len() == 0 {
            self.underflow(name)
        } else {
            (self.popped().pushed(value_of(reply)).advanced(), Outcome::Ran)
        }
    }

    /// A conditional jump called `name` that jumps when the popped value's
    /// zero test (the reply) equals `when_zero`.
    pub open spec fn branch(
        self,
        name: Seq<char>,
        len: nat,
        offset: i16,
        when_zero: bool,
        reply: Option<Reply<V>>,
    ) -> (Machine<V>, Outcome) {
        if self.stack.len() == 0 {
            self.underflow(name)
        } else if zero_of(reply) == when_zero {
            self.popped().jump(len, offset)
        } else {
            (self.popped().advanced(), Outcome::Ran)
        }
    }

    /// Executes `op` (already fetched and counted) in a program of `len` instructions.
    pub open spec fn execute(self, len: nat, op: Opcode<V>, reply: Option<Reply<V>>) -> (
        Machine<V>,
        Outcome,
    ) {
        let n = self.stack.len();
        let pc = self.pc;
        match op {
            Opcode::Push(v) => (self.pushed(v).advanced(), Outcome::Ran),
            Opcode::Dup => if n == 0 {
                self.underflow("DUP"@)
            } else {
                (self.pushed(self.stack.last()).advanced(), Outcome::Ran)
            },
            Opcode::Pop => if n == 0 {
                self.underflow("POP"@)
            } else {
                (self.popped().advanced(), Outcome::Ran)
            },
            Opcode::Swap => if n == 0 {
                self.underflow("SWAP"@)
            } else if n == 1 {
                self.popped().underflow("SWAP"@)
            } else {
                (
                    self.popped().popped().pushed(self.stack[n - 1]).pushed(
                        self.stack[n - 2],
                    ).advanced(),
                    Outcome::Ran,
                )
            },
            Opcode::Add => self.binary("ADD"@, reply),
            Opcode::Sub => self.binary("SUB"@, reply),
            Opcode::Mul => self.binary("MUL"@, reply),
            Opcode::Div => if n == 0 {
                self.underflow("DIV"@)
            } else if n == 1 {
                self.popped().underflow("DIV"@)
            } else {
                match quotient_of(reply) {
                    Some(q) => (self.popped().popped().pushed(q).advanced(), Outcome::Ran),
                    None => (self.popped().popped(), Outcome::Error(division_message(pc))),
                }
            },
            Opcode::Neg => self.unary("NEG"@, reply),
            Opcode::Load(i) => if i >= 16 {
                (self, Outcome::Error(bounds_message("local index "@, i as nat, pc)))
            } else {
                (self.pushed(self.locals[i as int]).advanced(), Outcome::Ran)
            },
            Opcode::Store(i) => if i >= 16 {
                (self, Outcome::Error(bounds_message("local index "@, i as nat, pc)))
            } else if n == 0 {
                self.underflow("STORE"@)
            } else {
                (
                    Machine {
                        locals: self.locals.update(i as int, self.stack.last()),
                        ..self.popped()
                    }.advanced(),
                    Outcome::Ran,
                )
            },
            Opcode::Jmp(o) => self.jump(len, o),
            Opcode::Jz(o) => self.branch("JZ"@, len, o, true, reply),
            Opcode::Jnz(o) => self.branch("JNZ"@, len, o, false, reply),
            Opcode::Call(t) => if t as nat >= len {
                (self, Outcome::Error(bounds_message("CALL target "@, t as nat, pc)))
            } else {
                (
                    Machine {
                        call_stack: self.call_stack.push((pc + 1) as usize),
                        pc: t as usize,
                        ..self
                    },
                    Outcome::Ran,
                )
            },
            Opcode::Ret => if self.call_stack.len() == 0 {
                (Machine { halted: true, ..self }, Outcome::Ran)
            } else {
                (
                    Machine {
                        call_stack: self.call_stack.drop_last(),
                        pc: self.call_stack.last(),
                        ..self
                    },
                    Outcome::Ran,
                )
            },
            Opcode::Lt => self.binary("LT"@, reply),
            Opcode::Gt => self.binary("GT"@, reply),
            Opcode::Eq => self.binary("EQ"@, reply),
            Opcode::And => self.binary("AND"@, reply),
            Opcode::Or => self.binary("OR"@, reply),
            Opcode::Not => self.unary("NOT"@, reply),
            Opcode::Print => if n == 0 {
                self.underflow("PRINT"@)
            } else {
                (
                    Machine { output: self.output.push(text_of(reply)), ..self.popped() }.advanced(),
                    Outcome::Ran,
                )
            },
            Opcode::Halt => (Machine { halted: true, ..self }, Outcome::Halted),
            Opcode::VibeGet => (self.pushed(self.vibe).advanced(), Outcome::Ran),
            Opcode::VibeSet => if n == 0 {
                self.underflow("VIBE_SET"@)
            } else {
                (Machine { vibe: self.stack.last(), ..self.popped() }.advanced(), Outcome::Ran)
            },
            Opcode::Sense(ch) => if ch >= 8 {
                (self, Outcome::Error(bounds_message("sensor channel "@, ch as nat, pc)))
            } else {
                (self.pushed(self.sensors[ch as int]).advanced(), Outcome::Ran)
            },
            Opcode::Act(ch) => if ch >= 8 {
                (self, Outcome::Error(bounds_message("actuator channel "@, ch as nat, pc)))
            } else if n == 0 {
                self.underflow("ACT"@)
            } else {
                (
                    Machine {
                        actuators: self.actuators.update(ch as int, self.stack.last()),
                        ..self.popped()
                    }.advanced(),
                    Outcome::Ran,
                )
            },
        }
    }

    /// One step of the machine running `prog`, with `reply` the host's answer
    /// to [`Machine::request`]: a halted machine stays halted; running past
    /// the last instruction halts; otherwise the instruction at `pc` is
    /// counted in `tick` and executed.
    pub open spec fn step(self, prog: Seq<Instruction<V>>, reply: Option<Reply<V>>) -> (
        Machine<V>,
        Outcome,
    ) {
        if self.halted {
            (self, Outcome::Halted)
        } else if self.pc >= prog.len() {
            (Machine { halted: true, ..self }, Outcome::Halted)
        } else {
            Machine { tick: (self.tick + 1) as u64, ..self }.execute(
                prog.len(),
                prog[self.pc as int].opcode,
                reply,
            )
        }
    }

    /// One step with `numeric` answering what the step asks of the host.
    pub open spec fn step_by<N: Numeric<V>>(self, prog: Seq<Instruction<V>>, numeric: &N) -> (Machine<V>, Outcome) {
        self.step(prog, answer_of(numeric, self.request(prog)))
    }

    /// The run of at most `budget` steps from here, `numeric` answering,
    /// never counts past `u64::MAX` instructions: each step it takes can be
    /// taken, and it goes on only while its steps run on.
    pub open spec fn counts_within<N: Numeric<V>>(self, prog: Seq<Instruction<V>>, numeric: &N, budget: nat) -> bool
        decreases budget,
    {
        budget == 0 || {
            &&& self.can_step(prog)
            &&& self.step_by(prog, numeric).1 == Outcome::Ran ==> self.step_by(prog, numeric).0.counts_within(
                prog,
                numeric,
                (budget - 1) as nat,
            )
        }
    }

    /// The step does not count past `u64::MAX` instructions.
    pub open spec fn can_step(self, prog: Seq<Instruction<V>>) -> bool {
        self.fetches(prog) ==> self.tick < u64::MAX
    }
}

// ---------------------------------------------------------------------------
// Runs
// ---------------------------------------------------------------------------

/// What a bounded run reports.
#[derive(Debug, Clone, PartialEq)]
pub struct VmResult<V> {
    /// Steps taken, counting the one that halted or failed.
    pub steps: usize,
    /// Whether the run ended by halting.
    pub halted: bool,
    /// The top of the stack at the end, if any.
    pub stack_top: Option<V>,
    /// All output printed so far.
    pub output: Vec<String>,
    /// Why the run stopped, unless it halted.
    pub error: Option<String>,
}

/// [`VmResult`] as the contracts see it.
pub struct RunReport<V> {
    pub steps: nat,
    pub halted: bool,
    pub stack_top: Option<V>,
    pub output: Seq<String>,
    pub error: Option<Seq<char>>,
}

impl<V> View for VmResult<V> {
    type V = RunReport<V>;

    open spec fn view(&self) -> RunReport<V> {
        RunReport {
            steps: self.steps as nat,
            halted: self.halted,
            stack_top: self.stack_top,
            output: self.output@,
            error: match self.error {
                Some(e) => Some(e@),
                None => None,
            },
        }
    }
}

/// The top of `s`, if any.
pub open spec fn top<V>(s: Seq<V>) -> Option<V> {
    if s.len() == 0 {
        None
    } else {
        Some(s.last())
    }
}

pub open spec fn max_steps_message(max_steps: nat, pc: usize) -> Seq<char> {
    "max steps ("@ + decimal(max_steps) + ") exceeded at pc="@ + decimal(pc as nat)
}

impl<V> Machine<V> {
    /// The machine after the steps whose replies are `replies`, in order.
    pub open spec fn after(self, prog: Seq<Instruction<V>>, replies: Seq<Option<Reply<V>>>) -> Machine<V>
        decreases replies.len(),
    {
        if replies.len() == 0 {
            self
        } else {
            self.after(prog, replies.drop_last()).step(prog, replies.last()).0
        }
    }

    /// The outcome of step `k` (from 0) of the steps whose replies are `replies`.
    pub open spec fn outcome_at(
        self,
        prog: Seq<Instruction<V>>,
        replies: Seq<Option<Reply<V>>>,
        k: int,
    ) -> Outcome {
        self.after(prog, replies.take(k)).step(prog, replies[k]).1
    }

    /// Each of `replies` answers the request of its step.
    pub open spec fn answered(self, prog: Seq<Instruction<V>>, replies: Seq<Option<Reply<V>>>) -> bool {
        forall|k: int|
            0 <= k < replies.len() ==> #[trigger] fits(
                self.after(prog, replies.take(k)).request(prog),
                replies[k],
            )
    }

    /// Each of `replies` is `numeric`'s answer to what its step asks.
    pub open spec fn hosted<N: Numeric<V>>(
        self,
        prog: Seq<Instruction<V>>,
        replies: Seq<Option<Reply<V>>>,
        numeric: &N,
    ) -> bool {
        forall|k: int|
            0 <= k < replies.len() ==> #[trigger] replies[k] == answer_of(
                numeric,
                self.after(prog, replies.take(k)).request(prog),
            )
    }

    /// The machine after `k` steps, `numeric` answering each.
    pub open spec fn steps_by<N: Numeric<V>>(self, prog: Seq<Instruction<V>>, numeric: &N, k: nat) -> Machine<V>
        decreases k,
    {
        if k == 0 {
            self
        } else {
            self.steps_by(prog, numeric, (k - 1) as nat).step_by(prog, numeric).0
        }
    }

    /// The first `count` of the steps whose replies are `replies` all ran on.
    pub open spec fn ran_on(self, prog: Seq<Instruction<V>>, replies: Seq<Option<Reply<V>>>, count: int) -> bool {
        forall|k: int| 0 <= k < count ==> #[trigger] self.outcome_at(prog, replies, k) == Outcome::Ran
    }

    /// `replies` are the replies of a whole run of at most `max_steps` steps:
    /// at least one step, every step but the last ran on, and the last halted
    /// or failed unless the budget is spent.
    pub open spec fn is_run(self, prog: Seq<Instruction<V>>, replies: Seq<Option<Reply<V>>>, max_steps: nat) -> bool {
        let n = replies.len() as int;
        &&& 1 <= n <= max_steps
        &&& self.answered(prog, replies)
        &&& self.ran_on(prog, replies, n - 1)
        &&& (self.outcome_at(prog, replies, n - 1) == Outcome::Ran ==> n == max_steps)
    }

    /// What a run of at most `max_steps` steps with `replies` reports.
    pub open spec fn report(self, prog: Seq<Instruction<V>>, replies: Seq<Option<Reply<V>>>, max_steps: nat) -> RunReport<V> {
        let n = replies.len() as int;
        let last = self.outcome_at(prog, replies, n - 1);
        let end = self.after(prog, replies);
        RunReport {
            steps: n as nat,
            halted: last == Outcome::Halted,
            stack_top: top(end.stack),
            output: end.output,
            error: match last {
                Outcome::Halted => None,
                Outcome::Error(e) => Some(e),
                Outcome::Ran => Some(max_steps_message(max_steps, end.pc)),
            },
        }
    }

    /// What a run asked for zero steps reports.
    pub open spec fn zero_report(self) -> RunReport<V> {
        RunReport {
            steps: 0,
            halted: self.halted,
            stack_top: top(self.stack),
            output: self.output,
            error: Some("max_steps is zero"@),
        }
    }
}

/// One step counts one instruction when it fetches one and none otherwise;
/// it never writes a sensor; the locals change only by `STORE`, the
/// actuators only by `ACT`, the vibe only by `VIBE_SET`, and the output only
/// by `PRINT`, which adds one line; and an instruction that fails leaves the
/// program counter where it was.
pub proof fn lemma_step_frame<V>(m: Machine<V>, prog: Seq<Instruction<V>>, reply: Option<Reply<V>>)
    requires
        m.well_formed(),
    ensures
        ({
            let (m2, out) = m.step(prog, reply);
            let op = prog[m.pc as int].opcode;
            &&& m2.well_formed()
            &&& m2.tick == if m.fetches(prog) {
                (#[verifier::truncate] ((m.tick + 1) as u64))
            } else {
                m.tick
            }
            &&& m2.sensors == m.sensors
            &&& (!(m.fetches(prog) && op is Store) ==> m2.locals == m.locals)
            &&& (!(m.fetches(prog) && op is Act) ==> m2.actuators == m.actuators)
            &&& (!(m.fetches(prog) && op is VibeSet) ==> m2.vibe == m.vibe)
            &&& (!(m.fetches(prog) && op is Print) ==> m2.output == m.output)
            &&& (m.fetches(prog) && op is Print ==> m2.output.len() <= m.output.len() + 1)
            &&& (out is Error ==> m2.pc == m.pc)
        }),
{
}

/// A halted machine stays as it is and reports `Halted`, whatever the program.
pub proof fn lemma_halted_stays<V>(m: Machine<V>, prog: Seq<Instruction<V>>, reply: Option<Reply<V>>)
    requires
        m.halted,
    ensures
        m.step(prog, reply) == (m, Outcome::Halted),
{
}

/// `CALL t` followed, at `t`, by `RET` comes back to the instruction after
/// the `CALL` with the call stack and the operand stack as they were.
pub proof fn lemma_call_then_ret<V>(
    m: Machine<V>,
    prog: Seq<Instruction<V>>,
    t: u8,
    r1: Option<Reply<V>>,
    r2: Option<Reply<V>>,
)
    requires
        prog.len() <= usize::MAX,
        m.fetches(prog),
        prog[m.pc as int].opcode == Opcode::<V>::Call(t),
        (t as int) < prog.len(),
        prog[t as int].opcode is Ret,
    ensures
        ({
            let m1 = m.step(prog, r1).0;
            let (m2, out) = m1.step(prog, r2);
            &&& m.step(prog, r1).1 == Outcome::Ran
            &&& out == Outcome::Ran
            &&& m2.pc == m.pc + 1
            &&& m2.call_stack == m.call_stack
            &&& m2.stack == m.stack
            &&& !m2.halted
        }),
{
    let m1 = m.step(prog, r1).0;
    assert(m1.call_stack.drop_last() =~= m.call_stack);
}

/// `RET` with an empty call stack halts the machine: that step runs, and
/// the next one reports `Halted`.
pub proof fn lemma_ret_from_main_halts<V>(
    m: Machine<V>,
    prog: Seq<Instruction<V>>,
    r1: Option<Reply<V>>,
    r2: Option<Reply<V>>,
)
    requires
        m.fetches(prog),
        prog[m.pc as int].opcode is Ret,
        m.call_stack.len() == 0,
    ensures
        m.step(prog, r1).1 == Outcome::Ran,
        m.step(prog, r1).0.halted,
        m.step(prog, r1).0.step(prog, r2).1 == Outcome::Halted,
{
}

/// A binary value instruction pops `b` (the top) and then `a`, and pushes
/// the host's `a op b` in their place.
pub proof fn lemma_binary_pops_two<V>(m: Machine<V>, prog: Seq<Instruction<V>>, v: V)
    requires
        prog.len() <= usize::MAX,
        m.fetches(prog),
        binary_of(prog[m.pc as int].opcode) is Some,
        m.stack.len() >= 2,
    ensures
        m.request(prog) == Some(
            Request::Binary(
                binary_of(prog[m.pc as int].opcode)->0,
                m.stack[m.stack.len() - 2],
                m.stack[m.stack.len() - 1],
            ),
        ),
        m.step(prog, Some(Reply::Value(v))).0.stack == m.stack.subrange(0, m.stack.len() - 2).push(v),
        m.step(prog, Some(Reply::Value(v))).0.pc == m.pc + 1,
{
    assert(m.stack.drop_last().drop_last() =~= m.stack.subrange(0, m.stack.len() - 2));
}

/// `JMP o` moves the program counter by `o` when that stays in the program,
/// and `CALL t` moves it to `t`, saving the next instruction's index.
pub proof fn lemma_jumps<V>(m: Machine<V>, prog: Seq<Instruction<V>>, reply: Option<Reply<V>>)
    requires
        prog.len() <= usize::MAX,
        m.fetches(prog),
    ensures
        match prog[m.pc as int].opcode {
            Opcode::Jmp(o) => 0 <= m.pc + o < prog.len() ==> {
                &&& m.step(prog, reply).0.pc == m.pc + o
                &&& m.step(prog, reply).1 == Outcome::Ran
            },
            Opcode::Call(t) => (t as int) < prog.len() ==> {
                &&& m.step(prog, reply).0.pc == t
                &&& m.step(prog, reply).0.call_stack == m.call_stack.push((m.pc + 1) as usize)
            },
            _ => true,
        },
{
}

/// `PUSH v` followed by `POP` leaves the operand stack as it was and moves
/// on past both.
pub proof fn lemma_push_then_pop<V>(
    m: Machine<V>,
    prog: Seq<Instruction<V>>,
    v: V,
    r1: Option<Reply<V>>,
    r2: Option<Reply<V>>,
)
    requires
        prog.len() <= usize::MAX,
        m.fetches(prog),
        prog[m.pc as int].opcode == Opcode::Push(v),
        m.pc + 1 < prog.len(),
        prog[m.pc + 1].opcode is Pop,
    ensures
        ({
            let m1 = m.step(prog, r1).0;
            let (m2, out) = m1.step(prog, r2);
            &&& out == Outcome::Ran
            &&& m2.stack == m.stack
            &&& m2.pc == m.pc + 2
        }),
{
    let m1 = m.step(prog, r1).0;
    assert(m1.stack.drop_last() =~= m.stack);
}

/// A fresh machine has an empty operand stack, call stack and output, `pc`
/// and `tick` at 0, is not halted, and holds `zero` in each of its 16
/// locals, its vibe, and each of its 8 sensors and 8 actuators.
pub proof fn lemma_fresh<V>(zero: V)
    ensures
        ({
            let m = Machine::fresh(zero);
            &&& m.stack.len() == 0 && m.call_stack.len() == 0 && m.output.len() == 0
            &&& m.pc == 0 && m.tick == 0 && !m.halted
            &&& m.vibe == zero
            &&& m.locals.len() == 16 && forall|i: int| 0 <= i < 16 ==> #[trigger] m.locals[i] == zero
            &&& m.sensors.len() == 8 && forall|i: int| 0 <= i < 8 ==> #[trigger] m.sensors[i] == zero
            &&& m.actuators.len() == 8 && forall|i: int| 0 <= i < 8 ==> #[trigger] m.actuators[i] == zero
        }),
{
}

// ---------------------------------------------------------------------------
// What each instruction does
// ---------------------------------------------------------------------------

/// The stack instructions, on a machine about to run one of them (`s` the
/// stack, `n` its length):
/// - `PUSH v` leaves `s` followed by `v`;
/// - `DUP` leaves `s` followed by its top `s[n-1]`;
/// - `POP` leaves `s` without its top;
/// - `SWAP` leaves `s` with its two top values exchanged: the first `n-2`
///   values, then the old top, then the old second value;
/// each moving on to the next instruction; with too few values `DUP`, `POP`
/// and `SWAP` fail with a stack underflow and leave `pc` where it was.
pub proof fn lemma_stack_instructions<V>(m: Machine<V>, prog: Seq<Instruction<V>>, reply: Option<Reply<V>>)
    requires
        prog.len() <= usize::MAX,
        m.fetches(prog),
    ensures
        ({
            let (m2, out) = m.step(prog, reply);
            let s = m.stack;
            let n = s.len() as int;
            &&& prog[m.pc as int].opcode matches Opcode::Push(v) ==> out == Outcome::Ran && m2.stack == s.push(v)
                && m2.pc == m.pc + 1
            &&& prog[m.pc as int].opcode is Dup ==> if n >= 1 {
                out == Outcome::Ran && m2.stack == s.push(s[n - 1]) && m2.pc == m.pc + 1
            } else {
                out == Outcome::Error(underflow_message("DUP"@, m.pc)) && m2.pc == m.pc
            }
            &&& prog[m.pc as int].opcode is Pop ==> if n >= 1 {
                out == Outcome::Ran && m2.stack == s.subrange(0, n - 1) && m2.pc == m.pc + 1
            } else {
                out == Outcome::Error(underflow_message("POP"@, m.pc)) && m2.pc == m.pc
            }
            &&& prog[m.pc as int].opcode is Swap ==> if n >= 2 {
                &&& out == Outcome::Ran
                &&& m2.stack == s.subrange(0, n - 2).push(s[n - 1]).push(s[n - 2])
                &&& m2.stack.len() == n
                &&& m2.stack[n - 1] == s[n - 2]
                &&& m2.stack[n - 2] == s[n - 1]
                &&& m2.pc == m.pc + 1
            } else {
                out == Outcome::Error(underflow_message("SWAP"@, m.pc)) && m2.pc == m.pc
            }
        }),
{
    let s = m.stack;
    let n = s.len() as int;
    if n >= 1 {
        assert(s.drop_last() =~= s.subrange(0, n - 1));
    }
    if n >= 2 {
        assert(s.drop_last().drop_last() =~= s.subrange(0, n - 2));
    }
}

/// The value instructions ask the host about the values they pop, the top
/// `b = s[n-1]` being the right operand and `a = s[n-2]` the left: a binary
/// instruction (`ADD`, `SUB`, `MUL`, `LT`, `GT`, `EQ`, `AND`, `OR`) leaves the
/// first `n-2` values followed by the host's `a op b`; `DIV` leaves the first
/// `n-2` values followed by the host's quotient `a / b`, or fails with a
/// division by zero (the two values popped, `pc` kept) when the host has none;
/// `NEG` and `NOT` replace the top `v` by the host's `op v`. Each
/// instruction asks for its own operation (`ADD` for `Add`, `LT` for `Lt`, ...).
pub proof fn lemma_value_instructions<V, N: Numeric<V>>(m: Machine<V>, prog: Seq<Instruction<V>>, numeric: &N)
    requires
        prog.len() <= usize::MAX,
        m.fetches(prog),
    ensures
        ({
            let (m2, out) = m.step_by(prog, numeric);
            let op = prog[m.pc as int].opcode;
            let s = m.stack;
            let n = s.len() as int;
            &&& op is Add ==> binary_of(op) == Some(BinaryOp::Add)
            &&& op is Sub ==> binary_of(op) == Some(BinaryOp::Sub)
            &&& op is Mul ==> binary_of(op) == Some(BinaryOp::Mul)
            &&& op is Lt ==> binary_of(op) == Some(BinaryOp::Lt)
            &&& op is Gt ==> binary_of(op) == Some(BinaryOp::Gt)
            &&& op is Eq ==> binary_of(op) == Some(BinaryOp::Eq)
            &&& op is And ==> binary_of(op) == Some(BinaryOp::And)
            &&& op is Or ==> binary_of(op) == Some(BinaryOp::Or)
            &&& !(op is Add || op is Sub || op is Mul || op is Lt || op is Gt || op is Eq || op is And
                || op is Or) ==> binary_of(op) is None
            &&& binary_of(op) is Some && n >= 2 ==> {
                let b = binary_of(op)->0;
                &&& m.request(prog) == Some(Request::Binary(b, s[n - 2], s[n - 1]))
                &&& out == Outcome::Ran
                &&& m2.stack == s.subrange(0, n - 2).push(numeric.binary_value(b, s[n - 2], s[n - 1]))
                &&& m2.pc == m.pc + 1
            }
            &&& op is Div && n >= 2 ==> {
                &&& m.request(prog) == Some(Request::Divide(s[n - 2], s[n - 1]))
                &&& match numeric.quotient_value(s[n - 2], s[n - 1]) {
                    Some(q) => out == Outcome::Ran && m2.stack == s.subrange(0, n - 2).push(q) && m2.pc
                        == m.pc + 1,
                    None => out == Outcome::Error(division_message(m.pc)) && m2.stack == s.subrange(0, n - 2)
                        && m2.pc == m.pc,
                }
            }
            &&& (op is Neg || op is Not) && n >= 1 ==> {
                let u = if op is Neg { UnaryOp::Neg } else { UnaryOp::Not };
                &&& m.request(prog) == Some(Request::Unary(u, s[n - 1]))
                &&& out == Outcome::Ran
                &&& m2.stack == s.subrange(0, n - 1).push(numeric.unary_value(u, s[n - 1]))
                &&& m2.pc == m.pc + 1
            }
        }),
{
    let s = m.stack;
    let n = s.len() as int;
    if n >= 1 {
        assert(s.drop_last() =~= s.subrange(0, n - 1));
    }
    if n >= 2 {
        assert(s.drop_last().drop_last() =~= s.subrange(0, n - 2));
    }
}

/// The instructions on locals, the vibe and the channels: `LOAD i` pushes
/// local `i`, `STORE i` pops the top into local `i`, `VIBE_GET` pushes the
/// vibe, `VIBE_SET` pops the top into the vibe, `SENSE c` pushes sensor `c`,
/// `ACT c` pops the top into actuator `c`; an index of 16 or more (a channel
/// of 8 or more) fails and leaves the machine as it was but for the count.
pub proof fn lemma_register_instructions<V>(m: Machine<V>, prog: Seq<Instruction<V>>, reply: Option<Reply<V>>)
    requires
        prog.len() <= usize::MAX,
        m.fetches(prog),
        m.well_formed(),
    ensures
        ({
            let (m2, out) = m.step(prog, reply);
            let s = m.stack;
            let n = s.len() as int;
            &&& prog[m.pc as int].opcode matches Opcode::Load(i) ==> if i < 16 {
                out == Outcome::Ran && m2.stack == s.push(m.locals[i as int]) && m2.pc == m.pc + 1
            } else {
                out == Outcome::Error(bounds_message("local index "@, i as nat, m.pc)) && m2.stack == s
                    && m2.pc == m.pc
            }
            &&& prog[m.pc as int].opcode matches Opcode::Store(i) ==> (i < 16 && n >= 1 ==> {
                &&& out == Outcome::Ran
                &&& m2.stack == s.subrange(0, n - 1)
                &&& m2.locals == m.locals.update(i as int, s[n - 1])
                &&& m2.pc == m.pc + 1
            })
            &&& prog[m.pc as int].opcode is VibeGet ==> out == Outcome::Ran && m2.stack == s.push(m.vibe)
                && m2.pc == m.pc + 1
            &&& prog[m.pc as int].opcode is VibeSet && n >= 1 ==> {
                &&& out == Outcome::Ran
                &&& m2.stack == s.subrange(0, n - 1)
                &&& m2.vibe == s[n - 1]
                &&& m2.pc == m.pc + 1
            }
            &&& prog[m.pc as int].opcode matches Opcode::Sense(c) ==> if c < 8 {
                out == Outcome::Ran && m2.stack == s.push(m.sensors[c as int]) && m2.pc == m.pc + 1
            } else {
                out == Outcome::Error(bounds_message("sensor channel "@, c as nat, m.pc)) && m2.stack == s
                    && m2.pc == m.pc
            }
            &&& prog[m.pc as int].opcode matches Opcode::Act(c) ==> (c < 8 && n >= 1 ==> {
                &&& out == Outcome::Ran
                &&& m2.stack == s.subrange(0, n - 1)
                &&& m2.actuators == m.actuators.update(c as int, s[n - 1])
                &&& m2.actuators[c as int] == s[n - 1]
                &&& m2.pc == m.pc + 1
            })
        }),
{
    let s = m.stack;
    let n = s.len() as int;
    if n >= 1 {
        assert(s.drop_last() =~= s.subrange(0, n - 1));
    }
}

/// The conditional jumps, `PRINT` and `HALT`: `JZ o` and `JNZ o` pop the top
/// and jump by `o` when the host finds it zero (for `JZ`) or not zero (for
/// `JNZ`), else go on to the next instruction; `PRINT` pops the top and adds
/// the host's text of it to the output; `HALT` halts and reports it, leaving
/// the stack and `pc` as they were.
pub proof fn lemma_control_instructions<V, N: Numeric<V>>(m: Machine<V>, prog: Seq<Instruction<V>>, numeric: &N)
    requires
        prog.len() <= usize::MAX,
        m.fetches(prog),
    ensures
        ({
            let (m2, out) = m.step_by(prog, numeric);
            let s = m.stack;
            let n = s.len() as int;
            let op = prog[m.pc as int].opcode;
            &&& (op is Jz || op is Jnz) && n >= 1 ==> {
                let o = if op is Jz { op->Jz_0 } else { op->Jnz_0 };
                let taken = numeric.is_zero_value(s[n - 1]) == (op is Jz);
                let t = jump_target(m.pc, o);
                &&& m.request(prog) == Some(Request::Test(s[n - 1]))
                &&& m2.stack == s.subrange(0, n - 1)
                &&& !taken ==> out == Outcome::Ran && m2.pc == m.pc + 1
                &&& taken && t < prog.len() ==> out == Outcome::Ran && m2.pc == t
                &&& taken && t >= prog.len() ==> out == Outcome::Error(jump_message(t, prog.len(), m.pc))
                    && m2.pc == m.pc
            }
            &&& op is Print && n >= 1 ==> {
                &&& m.request(prog) == Some(Request::Format(s[n - 1]))
                &&& out == Outcome::Ran
                &&& m2.stack == s.subrange(0, n - 1)
                &&& m2.output == m.output.push(numeric.format_value(s[n - 1]))
                &&& m2.pc == m.pc + 1
            }
            &&& op is Halt ==> out == Outcome::Halted && m2.halted && m2.stack == s && m2.pc == m.pc
        }),
{
    let s = m.stack;
    let n = s.len() as int;
    if n >= 1 {
        assert(s.drop_last() =~= s.subrange(0, n - 1));
    }
}

/// `CALL t` with `t` in the program saves the index of the next instruction
/// on the call stack and goes to `t`; with `t` past the program it fails and
/// leaves `pc` and the call stack as they were. `RET` goes back to the
/// index on top of the call stack and removes it; on an empty call stack it
/// halts. Neither touches the operand stack.
pub proof fn lemma_call_and_ret<V>(m: Machine<V>, prog: Seq<Instruction<V>>, reply: Option<Reply<V>>)
    requires
        prog.len() <= usize::MAX,
        m.fetches(prog),
    ensures
        ({
            let (m2, out) = m.step(prog, reply);
            let c = m.call_stack;
            &&& prog[m.pc as int].opcode matches Opcode::Call(t) ==> m2.stack == m.stack && if (t as int)
                < prog.len() {
                out == Outcome::Ran && m2.pc == t && m2.call_stack == c.push((m.pc + 1) as usize)
            } else {
                out == Outcome::Error(bounds_message("CALL target "@, t as nat, m.pc)) && m2.pc == m.pc
                    && m2.call_stack == c
            }
            &&& prog[m.pc as int].opcode is Ret ==> m2.stack == m.stack && out == Outcome::Ran && if c.len()
                > 0 {
                m2.pc == c[c.len() - 1] && m2.call_stack == c.subrange(0, c.len() - 1) && !m2.halted
            } else {
                m2.halted && m2.pc == m.pc
            }
        }),
{
}

/// A machine that is not halted and whose `pc` is past the program halts,
/// reports it, and counts no instruction.
pub proof fn lemma_past_end_halts<V>(m: Machine<V>, prog: Seq<Instruction<V>>, reply: Option<Reply<V>>)
    requires
        !m.halted,
        m.pc >= prog.len(),
    ensures
        m.step(prog, reply).1 == Outcome::Halted,
        m.step(prog, reply).0 == (Machine { halted: true, ..m }),
        m.step(prog, reply).0.tick == m.tick,
{
}

/// The top of a stack is its last value: the one pushed last.
pub proof fn lemma_top_is_last_pushed<V>(s: Seq<V>, v: V)
    ensures
        top(s.push(v)) == Some(v),
        s.len() > 0 ==> top(s) == Some(s[s.len() - 1]),
        s.len() == 0 ==> top(s) is None,
{
    assert(s.push(v)[s.len() as int] == v);
}

/// A run reports as its stack top the value on top of the stack at its end:
/// the last value of that stack, or nothing when it is empty.
pub proof fn lemma_report_stack_top<V>(m: Machine<V>, prog: Seq<Instruction<V>>, replies: Seq<Option<Reply<V>>>, max_steps: nat)
    ensures
        ({
            let end = m.after(prog, replies).stack;
            m.report(prog, replies, max_steps).stack_top == if end.len() == 0 {
                None
            } else {
                Some(end[end.len() - 1])
            }
        }),
{
}

/// `e` ends with ` at pc=` and the program counter `pc` in decimal.
pub open spec fn names_pc(e: Seq<char>, pc: usize) -> bool {
    exists|prefix: Seq<char>| e == prefix + " at pc="@ + decimal(pc as nat)
}

/// Each kind of error message names the program counter it is given.
proof fn lemma_messages_name_pc(pc: usize)
    ensures
        forall|name: Seq<char>| #[trigger] names_pc(underflow_message(name, pc), pc),
        forall|what: Seq<char>, index: nat| #[trigger] names_pc(bounds_message(what, index, pc), pc),
        names_pc(division_message(pc), pc),
        forall|t: usize, len: nat| #[trigger] names_pc(jump_message(t, len, pc), pc),
{
    let at = " at pc="@;
    let d = decimal(pc as nat);
    assert forall|name: Seq<char>| #[trigger] names_pc(underflow_message(name, pc), pc) by {
        let prefix = "stack underflow on "@ + name;
        assert(underflow_message(name, pc) == prefix + at + d);
    }
    assert forall|what: Seq<char>, index: nat| #[trigger] names_pc(bounds_message(what, index, pc), pc) by {
        let prefix = what + decimal(index) + " out of bounds"@;
        reveal_strlit(" out of bounds at pc=");
        reveal_strlit(" out of bounds");
        reveal_strlit(" at pc=");
        assert(" out of bounds at pc="@ =~= " out of bounds"@ + at);
        assert(bounds_message(what, index, pc) =~= prefix + at + d);
    }
    let prefix = "division by zero"@;
    reveal_strlit("division by zero at pc=");
    reveal_strlit("division by zero");
    reveal_strlit(" at pc=");
    assert(division_message(pc) =~= prefix + at + d);
    assert forall|t: usize, len: nat| #[trigger] names_pc(jump_message(t, len, pc), pc) by {
        let prefix = "jump target "@ + decimal(t as nat) + " out of bounds (len="@ + decimal(len) + ")"@;
        reveal_strlit(") at pc=");
        reveal_strlit(")");
        reveal_strlit(" at pc=");
        assert(") at pc="@ =~= ")"@ + at);
        assert(jump_message(t, len, pc) =~= prefix + at + d);
    }
}

/// Every error that a step reports names the program counter of the
/// instruction that failed.
pub proof fn lemma_step_errors_name_pc<V>(m: Machine<V>, prog: Seq<Instruction<V>>, reply: Option<Reply<V>>)
    ensures
        m.step(prog, reply).1 matches Outcome::Error(e) ==> names_pc(e, m.pc),
{
    lemma_messages_name_pc(m.pc);
}

/// A run with a positive budget takes between one and `max_steps` steps; it
/// reports an error exactly when it did not halt, and that error names the
/// program counter at which the machine stopped.
pub proof fn lemma_run_ends_halted_or_named<V>(
    m: Machine<V>,
    prog: Seq<Instruction<V>>,
    replies: Seq<Option<Reply<V>>>,
    max_steps: nat,
)
    requires
        m.well_formed(),
        m.is_run(prog, replies, max_steps),
    ensures
        ({
            let r = m.report(prog, replies, max_steps);
            &&& 1 <= r.steps <= max_steps
            &&& r.halted <==> r.error is None
            &&& r.error matches Some(e) ==> names_pc(e, m.after(prog, replies).pc)
        }),
{
    let n = replies.len() as int;
    let before = m.after(prog, replies.take(n - 1));
    assert(replies.take(n - 1) =~= replies.drop_last());
    let end = m.after(prog, replies);
    assert(end == before.step(prog, replies[n - 1]).0);
    lemma_after_well_formed(m, prog, replies.take(n - 1));
    lemma_step_frame(before, prog, replies[n - 1]);
    lemma_step_errors_name_pc(before, prog, replies[n - 1]);
    let at = " at pc="@;
    let prefix = "max steps ("@ + decimal(max_steps) + ") exceeded"@;
    reveal_strlit(") exceeded at pc=");
    reveal_strlit(") exceeded");
    reveal_strlit(" at pc=");
    assert(") exceeded at pc="@ =~= ") exceeded"@ + at);
    assert(max_steps_message(max_steps, end.pc) =~= prefix + at + decimal(end.pc as nat));
}

/// Every machine reached by steps from a well-formed one is well-formed.
proof fn lemma_after_well_formed<V>(m: Machine<V>, prog: Seq<Instruction<V>>, replies: Seq<Option<Reply<V>>>)
    requires
        m.well_formed(),
    ensures
        m.after(prog, replies).well_formed(),
    decreases replies.len(),
{
    if replies.len() > 0 {
        lemma_after_well_formed(m, prog, replies.drop_last());
        lemma_step_frame(m.after(prog, replies.drop_last()), prog, replies.last());
    }
}

/// The steps of a run whose replies are the host's are the host-answered
/// step repeated: after `k` of them the machine is `steps_by(k)`, and step
/// `k` has the outcome of the host-answered step from there.
pub proof fn lemma_hosted_steps<V, N: Numeric<V>>(
    m: Machine<V>,
    prog: Seq<Instruction<V>>,
    replies: Seq<Option<Reply<V>>>,
    numeric: &N,
)
    requires
        m.hosted(prog, replies, numeric),
    ensures
        forall|k: int|
            0 <= k <= replies.len() ==> #[trigger] m.after(prog, replies.take(k)) == m.steps_by(
                prog,
                numeric,
                k as nat,
            ),
        forall|k: int|
            0 <= k < replies.len() ==> #[trigger] m.outcome_at(prog, replies, k) == m.steps_by(
                prog,
                numeric,
                k as nat,
            ).step_by(prog, numeric).1,
    decreases replies.len(),
{
    let n = replies.len() as int;
    if n > 0 {
        let shorter = replies.drop_last();
        assert forall|k: int| 0 <= k < shorter.len() implies #[trigger] shorter[k] == answer_of(
            numeric,
            m.after(prog, shorter.take(k)).request(prog),
        ) by {
            assert(shorter.take(k) =~= replies.take(k));
            assert(shorter[k] == replies[k]);
        }
        lemma_hosted_steps(m, prog, shorter, numeric);
        assert forall|k: int| 0 <= k <= n implies #[trigger] m.after(prog, replies.take(k)) == m.steps_by(
            prog,
            numeric,
            k as nat,
        ) by {
            if k < n {
                assert(replies.take(k) =~= shorter.take(k));
            } else {
                assert(replies.take(n) =~= replies);
                assert(shorter.take(n - 1) =~= shorter);
                assert(replies[n - 1] == answer_of(numeric, m.after(prog, replies.take(n - 1)).request(prog)));
                assert(replies.take(n - 1) =~= shorter);
            }
        }
        assert forall|k: int| 0 <= k < n implies #[trigger] m.outcome_at(prog, replies, k) == m.steps_by(
            prog,
            numeric,
            k as nat,
        ).step_by(prog, numeric).1 by {
            assert(replies[k] == answer_of(numeric, m.after(prog, replies.take(k)).request(prog)));
            if k < n - 1 {
                assert(replies.take(k) =~= shorter.take(k));
            }
        }
    } else {
        assert(replies.take(0) =~= replies);
    }
}

/// A run of at most `max_steps` steps, `numeric` answering, is the
/// host-answered step repeated until a step does not run on or the budget is
/// spent: every step before the last ran on, the last one did not unless it
/// spent the budget, the machine ends as `steps_by` that many steps, and the
/// report says how many steps were taken, whether the last halted, the top
/// of the stack and the output at the end, and the error of the last step
/// (or that the budget was spent).
pub proof fn lemma_run_is_repeated_step<V, N: Numeric<V>>(
    m: Machine<V>,
    prog: Seq<Instruction<V>>,
    replies: Seq<Option<Reply<V>>>,
    numeric: &N,
    max_steps: nat,
)
    requires
        m.is_run(prog, replies, max_steps),
        m.hosted(prog, replies, numeric),
    ensures
        ({
            let n = replies.len();
            let last = m.steps_by(prog, numeric, (n - 1) as nat).step_by(prog, numeric).1;
            let end = m.steps_by(prog, numeric, n);
            &&& 1 <= n <= max_steps
            &&& forall|k: nat| k < n - 1 ==> #[trigger] m.steps_by(prog, numeric, k).step_by(prog, numeric).1
                == Outcome::Ran
            &&& last == Outcome::Ran ==> n == max_steps
            &&& m.after(prog, replies) == end
            &&& m.report(prog, replies, max_steps) == (RunReport {
                steps: n,
                halted: last == Outcome::Halted,
                stack_top: top(end.stack),
                output: end.output,
                error: match last {
                    Outcome::Halted => None,
                    Outcome::Error(e) => Some(e),
                    Outcome::Ran => Some(max_steps_message(max_steps, end.pc)),
                },
            })
        }),
{
    lemma_hosted_steps(m, prog, replies, numeric);
    let n = replies.len() as int;
    assert(replies.take(n) =~= replies);
    assert(m.after(prog, replies.take(n)) == m.steps_by(prog, numeric, n as nat));
    assert(m.outcome_at(prog, replies, n - 1) == m.steps_by(prog, numeric, (n - 1) as nat).step_by(prog, numeric).1);
    assert forall|k: nat| k < n - 1 implies #[trigger] m.steps_by(prog, numeric, k).step_by(prog, numeric).1
        == Outcome::Ran by {
        assert(m.outcome_at(prog, replies, k as int) == Outcome::Ran);
    }
}

/// A run whose budget fits in the instruction count that is left never
/// counts past `u64::MAX` instructions.
pub proof fn lemma_budget_counts_within<V, N: Numeric<V>>(
    m: Machine<V>,
    prog: Seq<Instruction<V>>,
    numeric: &N,
    budget: nat,
)
    requires
        m.well_formed(),
        m.tick + budget <= u64::MAX,
    ensures
        m.counts_within(prog, numeric, budget),
    decreases budget,
{
    if budget > 0 {
        let reply = answer_of(numeric, m.request(prog));
        lemma_step_frame(m, prog, reply);
        lemma_budget_counts_within(m.step_by(prog, numeric).0, prog, numeric, (budget - 1) as nat);
    }
}

/// Taking one more step appends its reply.
proof fn lemma_after_push<V>(
    m: Machine<V>,
    prog: Seq<Instruction<V>>,
    replies: Seq<Option<Reply<V>>>,
    reply: Option<Reply<V>>,
)
    ensures
        m.after(prog, replies.push(reply)) == m.after(prog, replies).step(prog, reply).0,
        forall|k: int| 0 <= k <= replies.len() ==> #[trigger] replies.push(reply).take(k) == replies.take(k),
{
    assert(replies.push(reply).drop_last() =~= replies);
    assert forall|k: int| 0 <= k <= replies.len() implies #[trigger] replies.push(reply).take(k) == replies.take(k) by {
        assert(replies.push(reply).take(k) =~= replies.take(k));
    }
}

impl<V: Copy + Default> Default for VmState<V> {
    /// A fresh machine (see [`VmState::new`]) whose values are all `V::default()`.
    fn default() -> (r: Self)
        ensures
            exists|zero: V| r@ == Machine::fresh(zero),
    {
        VmState::new(V::default())
    }
}

fn copy_output(v: &Vec<String>) -> (r: Vec<String>)
    ensures
        r@ == v@,
{
    let mut r: Vec<String> = Vec::new();
    for i in 0..v.len()
        invariant
            r@ == v@.take(i as int),
    {
        r.push(v[i].clone());
        assert(r@ =~= v@.take(i + 1));
    }
    assert(v@.take(v@.len() as int) =~= v@);
    r
}

impl<V: Copy> VmState<V> {
    /// A fresh machine: empty stacks and output, `pc` and `tick` at 0, not
    /// halted, and every local, the vibe, every sensor and every actuator `zero`.
    pub fn new(zero: V) -> (r: Self)
        ensures
            r@ == Machine::fresh(zero),
    {
        broadcast use vstd::array::group_array_axioms;

        let r = VmState {
            stack: Vec::new(),
            locals: [zero; 16],
            pc: 0,
            vibe: zero,
            sensors: [zero; 8],
            actuators: [zero; 8],
            call_stack: Vec::new(),
            halted: false,
            tick: 0,
            output: Vec::new(),
        };
        assert(r.locals@ =~= filled(16, zero));
        assert(r.sensors@ =~= filled(8, zero));
        assert(r.actuators@ =~= filled(8, zero));
        r
    }

    /// Clears all state: the machine becomes a fresh one (see [`VmState::new`]).
    pub fn reset(&mut self, zero: V)
        ensures
            final(self)@ == Machine::fresh(zero),
    {
        broadcast use vstd::array::group_array_axioms;

        self.stack.clear();
        self.locals = [zero; 16];
        self.pc = 0;
        self.vibe = zero;
        self.sensors = [zero; 8];
        self.actuators = [zero; 8];
        self.call_stack.clear();
        self.halted = false;
        self.tick = 0;
        self.output.clear();
        assert(self.locals@ =~= filled(16, zero));
        assert(self.sensors@ =~= filled(8, zero));
        assert(self.actuators@ =~= filled(8, zero));
    }

    /// The value work that the next step will ask of the host (see [`Machine::request`]).
    pub fn request(&self, bytecode: &Bytecode<V>) -> (r: Option<Request<V>>)
        ensures
            r == self@.request(bytecode@),
    {
        if self.halted || self.pc >= bytecode.instructions.len() {
            return None;
        }
        let n = self.stack.len();
        let op = bytecode.instructions[self.pc].opcode;
        let bin = match op {
            Opcode::Add => Some(BinaryOp::Add),
            Opcode::Sub => Some(BinaryOp::Sub),
            Opcode::Mul => Some(BinaryOp::Mul),
            Opcode::Lt => Some(BinaryOp::Lt),
            Opcode::Gt => Some(BinaryOp::Gt),
            Opcode::Eq => Some(BinaryOp::Eq),
            Opcode::And => Some(BinaryOp::And),
            Opcode::Or => Some(BinaryOp::Or),
            _ => None,
        };
        if n >= 2 {
            if let Some(b) = bin {
                return Some(Request::Binary(b, self.stack[n - 2], self.stack[n - 1]));
            }
            if let Opcode::Div = op {
                return Some(Request::Divide(self.stack[n - 2], self.stack[n - 1]));
            }
        }
        if n >= 1 {
            match op {
                Opcode::Neg => Some(Request::Unary(UnaryOp::Neg, self.stack[n - 1])),
                Opcode::Not => Some(Request::Unary(UnaryOp::Not, self.stack[n - 1])),
                Opcode::Jz(_) | Opcode::Jnz(_) => Some(Request::Test(self.stack[n - 1])),
                Opcode::Print => Some(Request::Format(self.stack[n - 1])),
                _ => None,
            }
        } else {
            None
        }
    }

    fn underflow_result(&self, name: &str) -> (r: StepResult)
        ensures
            r.outcome() == Outcome::Error(underflow_message(name@, self.pc)),
    {
        StepResult::Error(underflow_text(name, self.pc))
    }

    fn exec_jump(&mut self, len: usize, offset: i16) -> (r: StepResult)
        ensures
            final(self)@ == old(self)@.jump(len as nat, offset).0,
            r.outcome() == old(self)@.jump(len as nat, offset).1,
    {
        match apply_offset(self.pc, offset, len) {
            Ok(t) => {
                self.pc = t;
                StepResult::Ran
            },
            Err(e) => StepResult::Error(e),
        }
    }

    fn exec_binary(&mut self, name: &str, reply: Option<Reply<V>>) -> (r: StepResult)
        requires
            old(self).stack@.len() >= 2 ==> reply matches Some(Reply::Value(_)),
            old(self).pc < usize::MAX,
        ensures
            final(self)@ == old(self)@.binary(name@, reply).0,
            r.outcome() == old(self)@.binary(name@, reply).1,
    {
        if self.stack.pop().is_none() {
            return self.underflow_result(name);
        }
        if self.stack.pop().is_none() {
            return self.underflow_result(name);
        }
        match reply {
            Some(Reply::Value(v)) => {
                self.stack.push(v);
                self.pc = self.pc + 1;
                StepResult::Ran
            },
            _ => {
                proof {
                    assert(false);
                }
                StepResult::Ran
            },
        }
    }

    fn exec_unary(&mut self, name: &str, reply: Option<Reply<V>>) -> (r: StepResult)
        requires
            old(self).stack@.len() >= 1 ==> reply matches Some(Reply::Value(_)),
            old(self).pc < usize::MAX,
        ensures
            final(self)@ == old(self)@.unary(name@, reply).0,
            r.outcome() == old(self)@.unary(name@, reply).1,
    {
        if self.stack.pop().is_none() {
            return self.underflow_result(name);
        }
        match reply {
            Some(Reply::Value(v)) => {
                self.stack.push(v);
                self.pc = self.pc + 1;
                StepResult::Ran
            },
            _ => {
                proof {
                    assert(false);
                }
                StepResult::Ran
            },
        }
    }

    fn exec_branch(
        &mut self,
        name: &str,
        len: usize,
        offset: i16,
        when_zero: bool,
        reply: Option<Reply<V>>,
    ) -> (r: StepResult)
        requires
            old(self).stack@.len() >= 1 ==> reply matches Some(Reply::Zero(_)),
            old(self).pc < usize::MAX,
        ensures
            final(self)@ == old(self)@.branch(name@, len as nat, offset, when_zero, reply).0,
            r.outcome() == old(self)@.branch(name@, len as nat, offset, when_zero, reply).1,
    {
        if self.stack.pop().is_none() {
            return self.underflow_result(name);
        }
        let z = match reply {
            Some(Reply::Zero(z)) => z,
            _ => {
                proof {
                    assert(false);
                }
                false
            },
        };
        if z == when_zero {
            self.exec_jump(len, offset)
        } else {
            self.pc = self.pc + 1;
            StepResult::Ran
        }
    }

    /// One step, with `reply` the host's answer to [`VmState::request`]
    /// (see [`Machine::step`]).
    pub fn step_with_reply(&mut self, bytecode: &Bytecode<V>, reply: Option<Reply<V>>) -> (r:
        StepResult)
        requires
            fits(old(self)@.request(bytecode@), reply),
            old(self)@.can_step(bytecode@),
        ensures
            final(self)@ == old(self)@.step(bytecode@, reply).0,
            r.outcome() == old(self)@.step(bytecode@, reply).1,
    {
        if self.halted {
            return StepResult::Halted;
        }
        let len = bytecode.instructions.len();
        if self.pc >= len {
            self.halted = true;
            return StepResult::Halted;
        }
        let op = bytecode.instructions[self.pc].opcode;
        self.tick = self.tick + 1;
        let pc = self.pc;
        match op {
            Opcode::Push(v) => {
                self.stack.push(v);
                self.pc = pc + 1;
                StepResult::Ran
            },
            Opcode::Dup => {
                let n = self.stack.len();
                if n == 0 {
                    return self.underflow_result("DUP");
                }
                let v = self.stack[n - 1];
                self.stack.push(v);
                self.pc = pc + 1;
                StepResult::Ran
            },
            Opcode::Pop => {
                if self.stack.pop().is_none() {
                    return self.underflow_result("POP");
                }
                self.pc = pc + 1;
                StepResult::Ran
            },
            Opcode::Swap => {
                let a = match self.stack.pop() {
                    Some(v) => v,
                    None => return self.underflow_result("SWAP"),
                };
                let b = match self.stack.pop() {
                    Some(v) => v,
                    None => return self.underflow_result("SWAP"),
                };
                self.stack.push(a);
                self.stack.push(b);
                self.pc = pc + 1;
                StepResult::Ran
            },
            Opcode::Add => self.exec_binary("ADD", reply),
            Opcode::Sub => self.exec_binary("SUB", reply),
            Opcode::Mul => self.exec_binary("MUL", reply),
            Opcode::Div => {
                if self.stack.pop().is_none() {
                    return self.underflow_result("DIV");
                }
                if self.stack.pop().is_none() {
                    return self.underflow_result("DIV");
                }
                match reply {
                    Some(Reply::Quotient(Some(q))) => {
                        self.stack.push(q);
                        self.pc = pc + 1;
                        StepResult::Ran
                    },
                    Some(Reply::Quotient(None)) => StepResult::Error(division_text(pc)),
                    _ => {
                        proof {
                            assert(false);
                        }
                        StepResult::Ran
                    },
                }
            },
            Opcode::Neg => self.exec_unary("NEG", reply),
            Opcode::Load(i) => {
                if i >= 16 {
                    return StepResult::Error(bounds_text("local index ", i as u64, pc));
                }
                let v = self.locals[i as usize];
                self.stack.push(v);
                self.pc = pc + 1;
                StepResult::Ran
            },
            Opcode::Store(i) => {
                if i >= 16 {
                    return StepResult::Error(bounds_text("local index ", i as u64, pc));
                }
                let v = match self.stack.pop() {
                    Some(v) => v,
                    None => return self.underflow_result("STORE"),
                };
                self.locals[i as usize] = v;
                self.pc = pc + 1;
                StepResult::Ran
            },
            Opcode::Jmp(o) => self.exec_jump(len, o),
            Opcode::Jz(o) => self.exec_branch("JZ", len, o, true, reply),
            Opcode::Jnz(o) => self.exec_branch("JNZ", len, o, false, reply),
            Opcode::Call(t) => {
                if t as usize >= len {
                    return StepResult::Error(bounds_text("CALL target ", t as u64, pc));
                }
                self.call_stack.push(pc + 1);
                self.pc = t as usize;
                StepResult::Ran
            },
            Opcode::Ret => {
                match self.call_stack.pop() {
                    Some(addr) => self.pc = addr,
                    None => self.halted = true,
                }
                StepResult::Ran
            },
            Opcode::Lt => self.exec_binary("LT", reply),
            Opcode::Gt => self.exec_binary("GT", reply),
            Opcode::Eq => self.exec_binary("EQ", reply),
            Opcode::And => self.exec_binary("AND", reply),
            Opcode::Or => self.exec_binary("OR", reply),
            Opcode::Not => self.exec_unary("NOT", reply),
            Opcode::Print => {
                if self.stack.pop().is_none() {
                    return self.underflow_result("PRINT");
                }
                match reply {
                    Some(Reply::Text(t)) => {
                        self.output.push(t);
                        self.pc = pc + 1;
                        StepResult::Ran
                    },
                    _ => {
                        proof {
                            assert(false);
                        }
                        StepResult::Ran
                    },
                }
            },
            Opcode::Halt => {
                self.halted = true;
                StepResult::Halted
            },
            Opcode::VibeGet => {
                let v = self.vibe;
                self.stack.push(v);
                self.pc = pc + 1;
                StepResult::Ran
            },
            Opcode::VibeSet => {
                let v = match self.stack.pop() {
                    Some(v) => v,
                    None => return self.underflow_result("VIBE_SET"),
                };
                self.vibe = v;
                self.pc = pc + 1;
                StepResult::Ran
            },
            Opcode::Sense(ch) => {
                if ch >= 8 {
                    return StepResult::Error(bounds_text("sensor channel ", ch as u64, pc));
                }
                let v = self.sensors[ch as usize];
                self.stack.push(v);
                self.pc = pc + 1;
                StepResult::Ran
            },
            Opcode::Act(ch) => {
                if ch >= 8 {
                    return StepResult::Error(bounds_text("actuator channel ", ch as u64, pc));
                }
                let v = match self.stack.pop() {
                    Some(v) => v,
                    None => return self.underflow_result("ACT"),
                };
                self.actuators[ch as usize] = v;
                self.pc = pc + 1;
                StepResult::Ran
            },
        }
    }

    /// One step, `numeric` answering what the step asks (see [`Machine::step_by`]).
    pub fn step<N: Numeric<V>>(&mut self, bytecode: &Bytecode<V>, numeric: &N) -> (r: StepResult)
        requires
            old(self)@.can_step(bytecode@),
        ensures
            final(self)@ == old(self)@.step_by(bytecode@, numeric).0,
            r.outcome() == old(self)@.step_by(bytecode@, numeric).1,
    {
        let reply = match self.request(bytecode) {
            None => None,
            Some(q) => Some(answer(numeric, q)),
        };
        self.step_with_reply(bytecode, reply)
    }

    fn stack_top(&self) -> (r: Option<V>)
        ensures
            r == top(self@.stack),
    {
        let n = self.stack.len();
        if n == 0 {
            None
        } else {
            Some(self.stack[n - 1])
        }
    }

    /// Runs at most `max_steps` steps, the host's answers coming from
    /// `numeric`, until the machine halts or an instruction fails. With a
    /// budget of zero nothing runs and the report says so; otherwise the
    /// machine moves through the steps of a run (see [`Machine::is_run`])
    /// and the report is that run's (see [`Machine::report`]).
    pub fn run<N: Numeric<V>>(&mut self, bytecode: &Bytecode<V>, max_steps: usize, numeric: &N) -> (r: VmResult<V>)
        requires
            old(self)@.counts_within(bytecode@, numeric, max_steps as nat),
        ensures
            max_steps == 0 ==> final(self)@ == old(self)@ && r@ == old(self)@.zero_report(),
            max_steps > 0 ==> exists|replies: Seq<Option<Reply<V>>>|
                {
                    &&& old(self)@.is_run(bytecode@, replies, max_steps as nat)
                    &&& old(self)@.hosted(bytecode@, replies, numeric)
                    &&& final(self)@ == old(self)@.after(bytecode@, replies)
                    &&& r@ == old(self)@.report(bytecode@, replies, max_steps as nat)
                },
    {
        if max_steps == 0 {
            let error = String::from_str("max_steps is zero");
            return VmResult {
                steps: 0,
                halted: self.halted,
                stack_top: self.stack_top(),
                output: copy_output(&self.output),
                error: Some(error),
            };
        }
        let ghost m0 = self@;
        let ghost prog = bytecode@;
        let ghost mut replies: Seq<Option<Reply<V>>> = Seq::empty();
        let mut steps: usize = 0;
        while steps < max_steps
            invariant
                0 <= steps <= max_steps,
                replies.len() == steps,
                prog == bytecode@,
                m0 == old(self)@,
                self@ == m0.after(prog, replies),
                m0.answered(prog, replies),
                m0.hosted(prog, replies, numeric),
                m0.ran_on(prog, replies, steps as int),
                self@.well_formed(),
                self@.counts_within(prog, numeric, (max_steps - steps) as nat),
            decreases max_steps - steps,
        {
            let ghost before = self@;
            let res = self.step(bytecode, numeric);
            let ghost reply = answer_of(numeric, before.request(prog));
            proof {
                lemma_step_frame(before, prog, reply);
                lemma_after_push(m0, prog, replies, reply);
                let old_replies = replies;
                replies = replies.push(reply);
                assert(replies.take(steps as int) == old_replies);
                assert forall|k: int| 0 <= k < replies.len() implies #[trigger] fits(
                    m0.after(prog, replies.take(k)).request(prog),
                    replies[k],
                ) by {
                    if k < steps {
                        assert(replies.take(k) == old_replies.take(k));
                        assert(old_replies[k] == replies[k]);
                    }
                }
                assert forall|k: int| 0 <= k < replies.len() implies #[trigger] replies[k] == answer_of(
                    numeric,
                    m0.after(prog, replies.take(k)).request(prog),
                ) by {
                    if k < steps {
                        assert(replies.take(k) == old_replies.take(k));
                        assert(old_replies[k] == replies[k]);
                    }
                }
                assert forall|k: int| 0 <= k < steps implies #[trigger] m0.outcome_at(prog, replies, k)
                    == Outcome::Ran by {
                    assert(replies.take(k) == old_replies.take(k));
                    assert(old_replies[k] == replies[k]);
                    assert(m0.outcome_at(prog, old_replies, k) == Outcome::Ran);
                }
                assert(m0.outcome_at(prog, replies, steps as int) == res.outcome());
            }
            steps = steps + 1;
            match res {
                StepResult::Ran => {},
                StepResult::Halted => {
                    let r = VmResult {
                        steps,
                        halted: true,
                        stack_top: self.stack_top(),
                        output: copy_output(&self.output),
                        error: None,
                    };
                    proof {
                        assert(m0.is_run(prog, replies, max_steps as nat));
                        assert(r@ == m0.report(prog, replies, max_steps as nat));
                    }
                    return r;
                },
                StepResult::Error(e) => {
                    let r = VmResult {
                        steps,
                        halted: false,
                        stack_top: self.stack_top(),
                        output: copy_output(&self.output),
                        error: Some(e),
                    };
                    proof {
                        assert(m0.is_run(prog, replies, max_steps as nat));
                        assert(r@ == m0.report(prog, replies, max_steps as nat));
                    }
                    return r;
                },
            }
        }
        let mut error = String::from_str("max steps (");
        error.append(decimal_text(max_steps as u64).as_str());
        error.append(") exceeded at pc=");
        error.append(decimal_text(self.pc as u64).as_str());
        let r = VmResult {
            steps,
            halted: false,
            stack_top: self.stack_top(),
            output: copy_output(&self.output),
            error: Some(error),
        };
        proof {
            assert(m0.is_run(prog, replies, max_steps as nat));
            assert(r@ == m0.report(prog, replies, max_steps as nat));
        }
        r
    }
}

} // verus!
