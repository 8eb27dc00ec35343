//! A bytecode compiler and stack machine for a small expression language.
//!
//! Source text is scanned into tokens, compiled in a single pass into a
//! [`Chunk`] of bytecode, and executed by the [`VM`]. Every function of this
//! crate is verified against the contract it carries.
//!
//! The crate holds no floating-point code. A number literal goes into the
//! constant pool as it is written, and a number on the stack is the bit
//! pattern of an IEEE-754 binary64 value. Order, equality and negation of
//! such patterns are integer work and are done here. What needs rounding is
//! not: when a run comes to the value of a literal, or to a sum, a
//! difference, a product or a quotient, the machine stops with a
//! [`NumberRequest`], and goes on when [`VM::resume`] brings the answer.
//! Printing is the caller's as well: a run that returns hands over the value,
//! a failed one the error, and [`report`] gives the text of either error.
//!
//! What the contracts state, beyond what each function returns:
//! - the tokens of a source end with `Eof`, their lexemes are slices of the
//!   source, and their lines never go down ([`scanner`]);
//! - a source that compiles gives a chunk that runs: no instruction of it
//!   lacks its operand or its stack values, every load names a constant, and
//!   the return finds exactly one value ([`code`], [`Parser::compile`]);
//! - a run of such a chunk never meets a malformed instruction, and leaves
//!   the stack empty when it returns ([`VM::run`]).

pub mod chunk;
pub mod code;
pub mod compiler;
pub mod debug;
pub mod parser;
pub mod report;
pub mod rules;
pub mod scanner;
pub mod text;
pub mod token;
pub mod value;
pub mod vm;

pub use chunk::{Chunk, Constant, OpCodes};
pub use compiler::Compiler;
pub use debug::debug_instruction;
pub use parser::{Diagnostic, Parser};
pub use rules::{get_rule, ParseFn, ParseRule, Precedence, Precs};
pub use scanner::Scanner;
pub use token::{Token, TokenType};
pub use value::{LoxValue, Object};
pub use vm::{Arithmetic, Fault, InterpretResult, NumberRequest, Signal, VM};
