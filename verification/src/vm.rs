//! The stack machine.
//!
//! The machine runs a chunk until the chunk returns, fails, or needs a
//! number that only floating-point hardware can give: the value of a number
//! literal, or a sum, difference, product or quotient. It then stops with a
//! [`Signal`]; whoever holds the machine answers a request through
//! [`VM::resume`].

use vstd::prelude::*;
use vstd::slice::slice_to_vec;
use vstd::string::StringSliceAdditionalSpecFns;
use crate::chunk::{Chunk, Code, Constant, Literal, OpCodes};
use crate::code::is_binary;
use crate::compiler::{compiled, Compiler};
use crate::scanner::is_number_literal;
use crate::parser::Diagnostic;
use crate::text::{ascii, ascii_bytes};
use crate::value::{falsey, number_less, number_negated, same_variant, values_equal};
use crate::value::{LoxValue, Object, Value};

verus! {

/// The number of slots of the value stack.
pub const STACK_SIZE: usize = 256;

/// How an interpretation ended.
#[derive(Copy, Clone, Debug, PartialEq, Eq, Structural)]
pub enum InterpretResult {
    Success,
    CompileError,
    RuntimeError,
}

/// The four operations whose result needs rounding.
#[derive(Copy, Clone, Debug, PartialEq, Eq, Structural)]
pub enum Arithmetic {
    Add,
    Subtract,
    Multiply,
    Divide,
}

/// Why a run failed.
#[derive(Copy, Clone, Debug, PartialEq, Eq, Structural)]
pub enum Fault {
    /// Negation of something that is no number.
    NotANumber,
    /// `+ - * /` on two values that are neither two numbers nor, for `+`,
    /// two strings.
    Incompatible,
    /// `<` or `>` on something that is no number.
    NotNumbers,
    /// A push onto a full stack.
    StackOverflow,
    /// Bytecode that no compilation yields: an instruction without its
    /// operand or its stack values, or no instruction where one is due.
    Malformed,
}

/// A number that the machine cannot work out itself.
#[derive(Debug)]
pub enum NumberRequest {
    /// The value of a number literal: digits, with at most one dot among
    /// them.
    Parse(Vec<u8>),
    /// `left op right`, both given as binary64 bit patterns.
    Binary { op: Arithmetic, left: u64, right: u64 },
}

/// The model of a request.
pub enum Ask {
    Parse(Seq<u8>),
    Binary { op: Arithmetic, left: u64, right: u64 },
}

impl View for NumberRequest {
    type V = Ask;

    open spec fn view(&self) -> Ask {
        match self {
            NumberRequest::Parse(digits) => Ask::Parse(digits@),
            NumberRequest::Binary { op, left, right } => Ask::Binary {
                op: *op,
                left: *left,
                right: *right,
            },
        }
    }
}

/// Why the machine stopped.
#[derive(Debug)]
pub enum Signal {
    /// The chunk returned this value, which is to be printed.
    Return(LoxValue),
    /// The run failed at an instruction from the given source line.
    RuntimeError { fault: Fault, line: u32 },
    /// The run goes on once [`VM::resume`] is given this number.
    Number(NumberRequest),
}

/// The model of a signal.
pub enum Event {
    Return(Value),
    RuntimeError { fault: Fault, line: u32 },
    Number(Ask),
}

impl View for Signal {
    type V = Event;

    open spec fn view(&self) -> Event {
        match self {
            Signal::Return(value) => Event::Return(value@),
            Signal::RuntimeError { fault, line } => Event::RuntimeError {
                fault: *fault,
                line: *line,
            },
            Signal::Number(request) => Event::Number(request@),
        }
    }
}

/// The model of the machine: the offset of the next instruction and
/// the values on the stack, the top one last.
pub struct Machine {
    pub ip: int,
    pub stack: Seq<Value>,
}

/// What one instruction leads to.
pub enum Outcome {
    /// The run goes on from this state.
    Next(Machine),
    /// The run stops in this state, for this reason.
    Stop(Machine, Event),
}

/// The source line of the byte at `offset`, or 0 where there is no byte.
pub open spec fn line_at(code: Code, offset: int) -> u32 {
    if 0 <= offset < code.lines.len() {
        code.lines[offset]
    } else {
        0
    }
}

/// What a binary instruction makes of `left` and `right`, in a stack that
/// holds `rest` below them.
pub open spec fn binary_outcome(
    code: Code,
    op: u8,
    ip: int,
    rest: Seq<Value>,
    left: Value,
    right: Value,
) -> Outcome {
    let on = Machine { ip, stack: rest };
    if op == OpCodes::OP_EQUAL {
        Outcome::Next(on.push(Value::Bool(values_equal(left, right))))
    } else if op == OpCodes::OP_GREATER || op == OpCodes::OP_LESS {
        match (left, right) {
            (Value::Number(a), Value::Number(b)) => Outcome::Next(
                on.push(
                    Value::Bool(
                        if op == OpCodes::OP_LESS {
                            number_less(a, b)
                        } else {
                            number_less(b, a)
                        },
                    ),
                ),
            ),
            _ => on.fail(code, Fault::NotNumbers),
        }
    } else {
        match (left, right) {
            (Value::Number(a), Value::Number(b)) => Outcome::Stop(
                on,
                Event::Number(Ask::Binary { op: arithmetic_of(op), left: a, right: b }),
            ),
            (Value::String(a), Value::String(b)) => if op == OpCodes::OP_ADD {
                Outcome::Next(on.push(Value::String(a + b)))
            } else {
                on.fail(code, Fault::Incompatible)
            },
            _ => on.fail(code, Fault::Incompatible),
        }
    }
}

/// The operation of an arithmetic instruction.
pub open spec fn arithmetic_of(op: u8) -> Arithmetic {
    if op == OpCodes::OP_ADD {
        Arithmetic::Add
    } else if op == OpCodes::OP_SUBSTRACT {
        Arithmetic::Subtract
    } else if op == OpCodes::OP_MULTIPLY {
        Arithmetic::Multiply
    } else {
        Arithmetic::Divide
    }
}

impl Machine {
    /// The state with `value` on top of the stack.
    pub open spec fn push(self, value: Value) -> Machine {
        Machine { ip: self.ip, stack: self.stack.push(value) }
    }

    /// A failed run: the stack is reset, and the error names the line of
    /// the byte read last.
    pub open spec fn fail(self, code: Code, fault: Fault) -> Outcome {
        Outcome::Stop(
            Machine { ip: self.ip, stack: Seq::empty() },
            Event::RuntimeError { fault, line: line_at(code, self.ip - 1) },
        )
    }

    /// A push that fails where the stack is full.
    pub open spec fn push_checked(self, code: Code, value: Value) -> Outcome {
        if self.stack.len() >= STACK_SIZE {
            self.fail(code, Fault::StackOverflow)
        } else {
            Outcome::Next(self.push(value))
        }
    }

    /// The instruction at `ip`: what it does to the machine.
    pub open spec fn step(self, code: Code) -> Outcome {
        let n = self.stack.len() as int;
        let after = Machine { ip: self.ip + 1, stack: self.stack };
        if !(0 <= self.ip < code.bytes.len()) {
            self.fail(code, Fault::Malformed)
        } else {
            let op = code.bytes[self.ip];
            if op == OpCodes::OP_RETURN {
                if n >= 1 {
                    Outcome::Stop(
                        Machine { ip: self.ip + 1, stack: self.stack.drop_last() },
                        Event::Return(self.stack.last()),
                    )
                } else {
                    after.fail(code, Fault::Malformed)
                }
            } else if op == OpCodes::OP_CONSTANT {
                if self.ip + 1 < code.bytes.len() && code.bytes[self.ip + 1] < code.values.len() {
                    let loaded = Machine { ip: self.ip + 2, stack: self.stack };
                    if n >= STACK_SIZE {
                        loaded.fail(code, Fault::StackOverflow)
                    } else {
                        match code.values[code.bytes[self.ip + 1] as int] {
                            Literal::String(bytes) => Outcome::Next(
                                loaded.push(Value::String(bytes)),
                            ),
                            Literal::Number(digits) => Outcome::Stop(
                                loaded,
                                Event::Number(Ask::Parse(digits)),
                            ),
                        }
                    }
                } else {
                    after.fail(code, Fault::Malformed)
                }
            } else if op == OpCodes::OP_NULL {
                after.push_checked(code, Value::Null)
            } else if op == OpCodes::OP_TRUE {
                after.push_checked(code, Value::Bool(true))
            } else if op == OpCodes::OP_FALSE {
                after.push_checked(code, Value::Bool(false))
            } else if op == OpCodes::OP_NEGATE {
                if n >= 1 {
                    match self.stack.last() {
                        Value::Number(a) => Outcome::Next(
                            Machine { ip: self.ip + 1, stack: self.stack.drop_last() }.push(
                                Value::Number(number_negated(a)),
                            ),
                        ),
                        _ => after.fail(code, Fault::NotANumber),
                    }
                } else {
                    after.fail(code, Fault::Malformed)
                }
            } else if op == OpCodes::OP_NOT {
                if n >= 1 {
                    Outcome::Next(
                        Machine { ip: self.ip + 1, stack: self.stack.drop_last() }.push(
                            Value::Bool(falsey(self.stack.last())),
                        ),
                    )
                } else {
                    after.fail(code, Fault::Malformed)
                }
            } else if is_binary(op) {
                if n >= 2 {
                    binary_outcome(
                        code,
                        op,
                        self.ip + 1,
                        self.stack.subrange(0, n - 2),
                        self.stack[n - 2],
                        self.stack[n - 1],
                    )
                } else {
                    after.fail(code, Fault::Malformed)
                }
            } else {
                Outcome::Next(after)
            }
        }
    }

    /// The run from this state up to the first stop.
    pub open spec fn run(self, code: Code) -> (Machine, Event)
        decreases code.bytes.len() - self.ip,
    {
        match self.step(code) {
            Outcome::Stop(machine, event) => (machine, event),
            Outcome::Next(machine) => {
                proof {
                    lemma_step_moves(self, code);
                }
                machine.run(code)
            },
        }
    }

    /// The run that goes on with the number that was asked for.
    pub open spec fn resume(self, code: Code, number: u64) -> (Machine, Event) {
        match self.push_checked(code, Value::Number(number)) {
            Outcome::Stop(machine, event) => (machine, event),
            Outcome::Next(machine) => machine.run(code),
        }
    }
}

/// An instruction that goes on moves the machine forward.
pub proof fn lemma_step_moves(machine: Machine, code: Code)
    ensures
        machine.step(code) matches Outcome::Next(next) ==> 0 <= machine.ip < next.ip
            <= code.bytes.len(),
{
}

/// The virtual machine: the offset of the next instruction, and a stack of
/// `STACK_SIZE` slots of which the first `stack_top` are in use.
pub struct VM {
    ip: usize,
    stack: Vec<LoxValue>,
    stack_top: usize,
}

impl View for VM {
    type V = Machine;

    closed spec fn view(&self) -> Machine {
        Machine {
            ip: self.ip as int,
            stack: Seq::new(self.stack_top as nat, |i: int| self.stack@[i]@),
        }
    }
}

impl InterpretResult {
    /// The exit code of a process that ends with this result.
    pub fn exit_code(&self) -> (code: i32)
        ensures
            code == match *self {
                InterpretResult::Success => 0i32,
                InterpretResult::CompileError => 65i32,
                InterpretResult::RuntimeError => 70i32,
            },
    {
        match self {
            InterpretResult::Success => 0,
            InterpretResult::CompileError => 65,
            InterpretResult::RuntimeError => 70,
        }
    }
}

/// What a fault says.
pub open spec fn fault_text(fault: Fault) -> Seq<u8> {
    match fault {
        Fault::NotANumber => ascii("Value must be a number."@),
        Fault::Incompatible => ascii("Values have incompatible types."@),
        Fault::NotNumbers => ascii("Values must be numbers."@),
        Fault::StackOverflow => ascii("Stack overflow."@),
        Fault::Malformed => ascii("Malformed bytecode."@),
    }
}

impl Fault {
    /// The message of the runtime error.
    pub fn message(&self) -> (text: &'static [u8])
        ensures
            text@ == fault_text(*self),
    {
        proof {
            reveal_strlit("Value must be a number.");
            reveal_strlit("Values have incompatible types.");
            reveal_strlit("Values must be numbers.");
            reveal_strlit("Stack overflow.");
            reveal_strlit("Malformed bytecode.");
        }
        match self {
            Fault::NotANumber => ascii_bytes("Value must be a number."),
            Fault::Incompatible => ascii_bytes("Values have incompatible types."),
            Fault::NotNumbers => ascii_bytes("Values must be numbers."),
            Fault::StackOverflow => ascii_bytes("Stack overflow."),
            Fault::Malformed => ascii_bytes("Malformed bytecode."),
        }
    }
}

impl Signal {
    /// The result of the interpretation that stopped with this signal, or
    /// `None` where the run waits for a number.
    pub fn result(&self) -> (result: Option<InterpretResult>)
        ensures
            result == match self@ {
                Event::Return(_) => Some(InterpretResult::Success),
                Event::RuntimeError { .. } => Some(InterpretResult::RuntimeError),
                Event::Number(_) => None,
            },
    {
        match self {
            Signal::Return(_) => Some(InterpretResult::Success),
            Signal::RuntimeError { .. } => Some(InterpretResult::RuntimeError),
            Signal::Number(_) => None,
        }
    }
}

impl VM {
    /// The stack has all its slots, and `stack_top` lies among them.
    pub closed spec fn wf(&self) -> bool {
        self.stack@.len() == STACK_SIZE && self.stack_top <= STACK_SIZE
    }

    /// A machine with an empty stack.
    pub fn new() -> (vm: Self)
        ensures
            vm.wf(),
            vm@ == (Machine { ip: 0, stack: Seq::empty() }),
    {
        let mut stack: Vec<LoxValue> = Vec::new();
        while stack.len() < STACK_SIZE
            invariant
                stack@.len() <= STACK_SIZE,
            decreases STACK_SIZE - stack@.len(),
        {
            stack.push(LoxValue::Null);
        }
        let vm = VM { ip: 0, stack, stack_top: 0 };
        assert(vm@.stack =~= Seq::empty());
        vm
    }

    /// The number of values on the stack.
    pub fn stack_top(&self) -> (top: usize)
        requires
            self.wf(),
        ensures
            top == self@.stack.len(),
            top <= STACK_SIZE,
    {
        self.stack_top
    }

    /// The offset of the next instruction.
    pub fn ip(&self) -> (ip: usize)
        ensures
            ip == self@.ip,
    {
        self.ip
    }

    /// A copy of the value that lies `distance` slots below the top of the
    /// stack.
    pub fn peek(&self, distance: usize) -> (val: LoxValue)
        requires
            self.wf(),
            distance < self@.stack.len(),
        ensures
            val@ == self@.stack[self@.stack.len() - 1 - distance],
    {
        self.stack[self.stack_top - 1 - distance].clone()
    }

    /// Compiles `source` and runs it from its first instruction, on the
    /// stack as it stands. A source that does not compile gives its
    /// diagnostic and is not run. Otherwise the chunk comes back with the
    /// first signal of the run, for [`VM::resume`] to go on with.
    pub fn interpret<'src>(&mut self, source: &'src str) -> (result: Result<
        (Chunk, Signal),
        Diagnostic<'src>,
    >)
        requires
            old(self).wf(),
        ensures
            final(self).wf(),
            ({
                let done = compiled(source.spec_bytes());
                let fresh = Machine { ip: 0, stack: old(self)@.stack };
                if done.had_error {
                    &&& result is Err
                    &&& Some(result->Err_0@) == done.report
                    &&& final(self)@ == fresh
                } else {
                    &&& result is Ok
                    &&& result->Ok_0.0@ == done.code
                    &&& result->Ok_0.0@.wf()
                    &&& (final(self)@, result->Ok_0.1@) == fresh.run(done.code)
                    &&& old(self)@.stack.len() == 0 ==> result->Ok_0.1@.sound(
                        done.code,
                        final(self)@,
                    )
                    &&& done.code.numbers_are_literals()
                }
            }),
    {
        let (chunk, diagnostic) = Compiler::new().compile(source);
        self.ip = 0;
        assert(self@.stack =~= old(self)@.stack);

        match diagnostic {
            Some(diagnostic) => Err(diagnostic),
            None => {
                let signal = self.run(&chunk);
                Ok((chunk, signal))
            },
        }
    }

    /// Runs `chunk` from the instruction at `ip` until it returns, fails or
    /// asks for a number.
    pub fn run(&mut self, chunk: &Chunk) -> (signal: Signal)
        requires
            old(self).wf(),
            chunk@.wf(),
        ensures
            final(self).wf(),
            (final(self)@, signal@) == old(self)@.run(chunk@),
            chunk@.runs(old(self)@.ip, old(self)@.stack.len() as int) ==> signal@.sound(
                chunk@,
                final(self)@,
            ),
            chunk@.numbers_are_literals() ==> (signal@ matches Event::Number(Ask::Parse(digits))
                ==> is_number_literal(digits)),
    {
        proof {
            if chunk@.runs(self@.ip, self@.stack.len() as int) {
                lemma_sound_run(self@, chunk@);
            }
            if chunk@.numbers_are_literals() {
                lemma_asks_for_literals(self@, chunk@);
            }
        }
        loop
            invariant
                self.wf(),
                chunk@.wf(),
                self@.run(chunk@) == old(self)@.run(chunk@),
                chunk@.runs(old(self)@.ip, old(self)@.stack.len() as int) ==> old(self)@.run(
                    chunk@,
                ).1.sound(chunk@, old(self)@.run(chunk@).0),
                chunk@.numbers_are_literals() ==> (old(self)@.run(chunk@).1 matches Event::Number(
                    Ask::Parse(digits),
                ) ==> is_number_literal(digits)),
            decreases chunk@.bytes.len() - self@.ip,
        {
            proof {
                lemma_step_moves(self@, chunk@);
            }
            match self.step(chunk) {
                Some(signal) => {
                    return signal;
                },
                None => {},
            }
        }
    }

    /// Goes on with a run that asked for a number: puts the number on the
    /// stack and runs until the next stop.
    pub fn resume(&mut self, chunk: &Chunk, number: u64) -> (signal: Signal)
        requires
            old(self).wf(),
            chunk@.wf(),
        ensures
            final(self).wf(),
            (final(self)@, signal@) == old(self)@.resume(chunk@, number),
            old(self)@.stack.len() < STACK_SIZE && chunk@.runs(
                old(self)@.ip,
                old(self)@.stack.len() as int + 1,
            ) ==> signal@.sound(chunk@, final(self)@),
            chunk@.numbers_are_literals() ==> (signal@ matches Event::Number(Ask::Parse(digits))
                ==> is_number_literal(digits)),
    {
        proof {
            if self@.stack.len() < STACK_SIZE && chunk@.runs(
                self@.ip,
                self@.stack.len() as int + 1,
            ) {
                lemma_sound_resume(self@, chunk@, number);
            }
        }
        if self.stack_top >= STACK_SIZE {
            return self.runtime_error(chunk, Fault::StackOverflow);
        }
        self.push(LoxValue::Number(number));
        self.run(chunk)
    }

    /// Carries out the instruction at `ip`. Returns the signal where the
    /// run stops with it, and `None` where the run goes on.
    pub fn step(&mut self, chunk: &Chunk) -> (stopped: Option<Signal>)
        requires
            old(self).wf(),
            chunk@.wf(),
        ensures
            final(self).wf(),
            match old(self)@.step(chunk@) {
                Outcome::Next(machine) => stopped is None && final(self)@ == machine,
                Outcome::Stop(machine, event) => stopped is Some && stopped->0@ == event && final(self)@ == machine,
            },
    {
        if self.ip >= chunk.len() {
            return Some(self.runtime_error(chunk, Fault::Malformed));
        }
        let op = self.read_byte(chunk);

        if op == OpCodes::OP_RETURN {
            if self.stack_top < 1 {
                return Some(self.runtime_error(chunk, Fault::Malformed));
            }
            let val = self.pop();
            Some(Signal::Return(val))
        } else if op == OpCodes::OP_CONSTANT {
            if self.ip >= chunk.len() {
                return Some(self.runtime_error(chunk, Fault::Malformed));
            }
            let ix = chunk.index(self.ip) as usize;
            if ix >= chunk.values.len() {
                return Some(self.runtime_error(chunk, Fault::Malformed));
            }
            self.ip += 1;
            assert(self@.stack =~= old(self)@.stack);
            if self.stack_top >= STACK_SIZE {
                return Some(self.runtime_error(chunk, Fault::StackOverflow));
            }
            match &chunk.values[ix] {
                Constant::String(bytes) => {
                    let copy = slice_to_vec(bytes.as_slice());
                    self.push(LoxValue::Object(Object::String(copy)));
                    None
                },
                Constant::Number(digits) => {
                    let copy = slice_to_vec(digits.as_slice());
                    Some(Signal::Number(NumberRequest::Parse(copy)))
                },
            }
        } else if op == OpCodes::OP_NULL {
            self.push_checked(chunk, LoxValue::Null)
        } else if op == OpCodes::OP_TRUE {
            self.push_checked(chunk, LoxValue::Bool(true))
        } else if op == OpCodes::OP_FALSE {
            self.push_checked(chunk, LoxValue::Bool(false))
        } else if op == OpCodes::OP_NEGATE {
            if self.stack_top < 1 {
                return Some(self.runtime_error(chunk, Fault::Malformed));
            }
            match self.pop().neg() {
                Some(negated) => {
                    self.push(negated);
                    None
                },
                None => Some(self.runtime_error(chunk, Fault::NotANumber)),
            }
        } else if op == OpCodes::OP_NOT {
            if self.stack_top < 1 {
                return Some(self.runtime_error(chunk, Fault::Malformed));
            }
            let val = self.pop().is_falsey();
            self.push(LoxValue::Bool(val));
            None
        } else if (OpCodes::OP_ADD <= op && op <= OpCodes::OP_DIVIDE) || (OpCodes::OP_EQUAL <= op
            && op <= OpCodes::OP_LESS) {
            if self.stack_top < 2 {
                return Some(self.runtime_error(chunk, Fault::Malformed));
            }
            // The right operand was pushed last, so it comes off first.
            let right = self.pop();
            let left = self.pop();
            assert(self@.stack =~= old(self)@.stack.subrange(0, old(self)@.stack.len() - 2));
            self.binary(chunk, op, left, right)
        } else {
            None
        }
    }

    /// Carries out a binary instruction on its two operands, which are off
    /// the stack already.
    fn binary(&mut self, chunk: &Chunk, op: u8, left: LoxValue, right: LoxValue) -> (stopped:
        Option<Signal>)
        requires
            old(self).wf(),
            chunk@.wf(),
            is_binary(op),
            old(self)@.stack.len() + 2 <= STACK_SIZE,
        ensures
            final(self).wf(),
            match binary_outcome(chunk@, op, old(self)@.ip, old(self)@.stack, left@, right@) {
                Outcome::Next(machine) => stopped is None && final(self)@ == machine,
                Outcome::Stop(machine, event) => stopped is Some && stopped->0@ == event && final(self)@ == machine,
            },
    {
        if op == OpCodes::OP_EQUAL {
            let val = left.equals(&right);
            self.push(LoxValue::Bool(val));
            None
        } else if op == OpCodes::OP_GREATER {
            match left.greater(&right) {
                Some(val) => {
                    self.push(val);
                    None
                },
                None => Some(self.runtime_error(chunk, Fault::NotNumbers)),
            }
        } else if op == OpCodes::OP_LESS {
            match left.less(&right) {
                Some(val) => {
                    self.push(val);
                    None
                },
                None => Some(self.runtime_error(chunk, Fault::NotNumbers)),
            }
        } else {
            match (left, right) {
                (LoxValue::Number(a), LoxValue::Number(b)) => {
                    let op = if op == OpCodes::OP_ADD {
                        Arithmetic::Add
                    } else if op == OpCodes::OP_SUBSTRACT {
                        Arithmetic::Subtract
                    } else if op == OpCodes::OP_MULTIPLY {
                        Arithmetic::Multiply
                    } else {
                        Arithmetic::Divide
                    };
                    Some(Signal::Number(NumberRequest::Binary { op, left: a, right: b }))
                },
                (LoxValue::Object(Object::String(a)), LoxValue::Object(Object::String(b))) => {
                    if op == OpCodes::OP_ADD {
                        let mut joined = a;
                        let mut rest = b;
                        joined.append(&mut rest);
                        self.push(LoxValue::Object(Object::String(joined)));
                        None
                    } else {
                        Some(self.runtime_error(chunk, Fault::Incompatible))
                    }
                },
                _ => Some(self.runtime_error(chunk, Fault::Incompatible)),
            }
        }
    }

    /// Pushes a value, or fails where the stack is full.
    fn push_checked(&mut self, chunk: &Chunk, val: LoxValue) -> (stopped: Option<Signal>)
        requires
            old(self).wf(),
            chunk@.wf(),
        ensures
            final(self).wf(),
            match old(self)@.push_checked(chunk@, val@) {
                Outcome::Next(machine) => stopped is None && final(self)@ == machine,
                Outcome::Stop(machine, event) => stopped is Some && stopped->0@ == event && final(self)@ == machine,
            },
    {
        if self.stack_top >= STACK_SIZE {
            Some(self.runtime_error(chunk, Fault::StackOverflow))
        } else {
            self.push(val);
            None
        }
    }

    /// Ends the run with an error: resets the stack and names the line of
    /// the byte that was read last.
    fn runtime_error(&mut self, chunk: &Chunk, fault: Fault) -> (signal: Signal)
        requires
            old(self).wf(),
            chunk@.wf(),
        ensures
            final(self).wf(),
            old(self)@.fail(chunk@, fault) == Outcome::Stop(final(self)@, signal@),
    {
        let line = if 1 <= self.ip && self.ip - 1 < chunk.lines.len() {
            chunk.lines[self.ip - 1]
        } else {
            0
        };
        self.reset_stack();
        Signal::RuntimeError { fault, line }
    }

    /// Reads the byte at `ip` and moves past it.
    fn read_byte(&mut self, chunk: &Chunk) -> (byte: u8)
        requires
            old(self).wf(),
            old(self)@.ip < chunk@.bytes.len(),
        ensures
            final(self).wf(),
            byte == chunk@.bytes[old(self)@.ip],
            final(self)@ == (Machine { ip: old(self)@.ip + 1, stack: old(self)@.stack }),
    {
        let byte = chunk.index(self.ip);
        assert(chunk.bytes@.len() == chunk.bytes.len());
        self.ip += 1;
        assert(self@.stack =~= old(self)@.stack);
        byte
    }

    /// Puts a value on top of the stack, which must have a free slot.
    pub fn push(&mut self, val: LoxValue)
        requires
            old(self).wf(),
            old(self)@.stack.len() < STACK_SIZE,
        ensures
            final(self).wf(),
            final(self)@ == old(self)@.push(val@),
    {
        self.stack.set(self.stack_top, val);
        self.stack_top += 1;
        assert(self@.stack =~= old(self)@.stack.push(val@));
    }

    /// Takes the top value off the stack, which must not be empty. The
    /// slot it leaves holds `Null` afterwards.
    pub fn pop(&mut self) -> (val: LoxValue)
        requires
            old(self).wf(),
            old(self)@.stack.len() > 0,
        ensures
            final(self).wf(),
            val@ == old(self)@.stack.last(),
            final(self)@ == (Machine { ip: old(self)@.ip, stack: old(self)@.stack.drop_last() }),
            final(self).slot(final(self)@.stack.len() as int) == Value::Null,
    {
        self.stack_top -= 1;
        // The slot gets Null in exchange, so that what the value owns on
        // the heap goes with the value.
        let mut val = LoxValue::Null;
        self.stack.set_and_swap(self.stack_top, &mut val);
        assert(self@.stack =~= old(self)@.stack.drop_last());
        val
    }

    /// What the stack slot `i` holds, in use or not.
    pub closed spec fn slot(&self, i: int) -> Value {
        self.stack@[i]@
    }

    /// Empties the stack.
    pub fn reset_stack(&mut self)
        requires
            old(self).wf(),
        ensures
            final(self).wf(),
            final(self)@ == (Machine { ip: old(self)@.ip, stack: Seq::empty() }),
    {
        self.stack_top = 0;
        assert(self@.stack =~= Seq::empty());
    }
}

impl Event {
    /// What a run of a chunk that runs can stop with: no malformed
    /// instruction; a return that leaves the stack empty; or a request
    /// after which the chunk still runs, with a free slot for the number.
    pub open spec fn sound(self, code: Code, machine: Machine) -> bool {
        match self {
            Event::RuntimeError { fault, .. } => fault != Fault::Malformed,
            Event::Return(_) => machine.stack.len() == 0,
            Event::Number(_) => machine.stack.len() < STACK_SIZE && code.runs(
                machine.ip,
                machine.stack.len() as int + 1,
            ),
        }
    }
}

/// A chunk that runs never stops on a malformed instruction; when it
/// returns, the stack is empty; and when it asks for a number, it runs on
/// from there once the number is on the stack.
pub proof fn lemma_sound_run(machine: Machine, code: Code)
    requires
        machine.stack.len() <= STACK_SIZE,
        code.runs(machine.ip, machine.stack.len() as int),
    ensures
        machine.run(code).1.sound(code, machine.run(code).0),
    decreases code.bytes.len() - machine.ip,
{
    lemma_step_moves(machine, code);
    let n = machine.stack.len() as int;
    let op = code.bytes[machine.ip];
    match machine.step(code) {
        Outcome::Stop(end, event) => {
            assert(event.sound(code, end));
        },
        Outcome::Next(next) => {
            assert(code.runs(next.ip, next.stack.len() as int));
            assert(next.stack.len() <= STACK_SIZE);
            lemma_sound_run(next, code);
        },
    }
}

/// The same of a run that goes on with the number it asked for.
pub proof fn lemma_sound_resume(machine: Machine, code: Code, number: u64)
    requires
        machine.stack.len() < STACK_SIZE,
        code.runs(machine.ip, machine.stack.len() as int + 1),
    ensures
        machine.resume(code, number).1.sound(code, machine.resume(code, number).0),
{
    lemma_sound_run(machine.push(Value::Number(number)), code);
}

/// A run asks for the value of nothing but a number of the constant pool:
/// where those are number literals, so is what the run asks to parse.
pub proof fn lemma_asks_for_literals(machine: Machine, code: Code)
    requires
        code.numbers_are_literals(),
    ensures
        machine.run(code).1 matches Event::Number(Ask::Parse(digits)) ==> is_number_literal(
            digits,
        ),
    decreases code.bytes.len() - machine.ip,
{
    lemma_step_moves(machine, code);
    match machine.step(code) {
        Outcome::Stop(end, event) => {},
        Outcome::Next(next) => {
            lemma_asks_for_literals(next, code);
        },
    }
}

/// A value that was pushed is the value that comes off, and the stack
/// below it is as it was.
pub proof fn lemma_push_then_pop(machine: Machine, value: Value)
    ensures
        machine.push(value).stack.last() == value,
        machine.push(value).stack.drop_last() == machine.stack,
{
    assert(machine.push(value).stack.drop_last() =~= machine.stack);
}

/// `OP_EQUAL` never fails: on any two values it goes on with their equality
/// on the stack, which is `false` for values of different variants.
pub proof fn lemma_equal_never_fails(code: Code, machine: Machine)
    requires
        0 <= machine.ip < code.bytes.len(),
        code.bytes[machine.ip] == OpCodes::OP_EQUAL,
        machine.stack.len() >= 2,
    ensures
        ({
            let n = machine.stack.len() as int;
            let left = machine.stack[n - 2];
            let right = machine.stack[n - 1];
            &&& machine.step(code) == Outcome::Next(
                Machine { ip: machine.ip + 1, stack: machine.stack.subrange(0, n - 2) }.push(
                    Value::Bool(values_equal(left, right)),
                ),
            )
            &&& !same_variant(left, right) ==> !values_equal(left, right)
        }),
{
}

/// `OP_NOT` behind a comparison negates it: on a boolean it goes on with
/// the opposite boolean in its place.
pub proof fn lemma_not_negates(code: Code, machine: Machine, truth: bool)
    requires
        0 <= machine.ip < code.bytes.len(),
        code.bytes[machine.ip] == OpCodes::OP_NOT,
        machine.stack.len() >= 1,
        machine.stack.last() == Value::Bool(truth),
    ensures
        machine.step(code) == Outcome::Next(
            Machine { ip: machine.ip + 1, stack: machine.stack.drop_last() }.push(
                Value::Bool(!truth),
            ),
        ),
{
}

} // verus!
