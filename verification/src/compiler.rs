//! The compiler's entry point.

use vstd::prelude::*;
use vstd::string::StringSliceAdditionalSpecFns;
use crate::chunk::{Chunk, Code, Literal, OpCodes};
use crate::parser::{expected_end, Diagnostic, Parse, Parser};
use crate::rules::{ParseFn, Precs};
use crate::scanner::{is_number_literal, next_token, Cursor};
use crate::token::{Lexeme, TokenType};

verus! {

/// The compiler: from source text to a chunk.
pub struct Compiler {}

/// What the compilation of `source` comes to.
pub open spec fn compiled(source: Seq<u8>) -> Parse {
    Parse::start(
        source,
        Code { bytes: Seq::empty(), lines: Seq::empty(), values: Seq::empty() },
    ).compile()
}

impl Compiler {
    pub fn new() -> Self {
        Compiler {  }
    }

    /// Compiles one expression into a fresh chunk that ends with the return
    /// instruction. The second component is the compile error: there is
    /// none exactly when the source compiled, and the chunk then runs to
    /// its return without a malformed instruction. Every number of the
    /// constant pool is a number literal, whether the source compiled or
    /// not.
    pub fn compile<'src>(&mut self, source: &'src str) -> (result: (Chunk, Option<Diagnostic<'src>>))
        ensures
            result.0@ == compiled(source.spec_bytes()).code,
            result.0@.wf(),
            result.1 is None <==> !compiled(source.spec_bytes()).had_error,
            result.1 matches Some(diagnostic) ==> Some(diagnostic@) == compiled(
                source.spec_bytes(),
            ).report,
            result.1 is None ==> result.0@.runs(0, 0),
            result.0@.numbers_are_literals(),
    {
        let mut parser = Parser::new(source);
        let mut chunk = Chunk::new();
        parser.compile(&mut chunk);
        (chunk, parser.diagnostic())
    }
}

/// A source that is one number literal compiles to the load of its one
/// constant, which holds the literal as written, and the return.
pub proof fn lemma_number_literal_compiles(source: Seq<u8>)
    requires
        is_number_literal(source),
    ensures
        !compiled(source).had_error,
        compiled(source).code.bytes == seq![OpCodes::OP_CONSTANT, 0u8, OpCodes::OP_RETURN],
        compiled(source).code.values == seq![Literal::Number(source)],
        compiled(source).code.lines == seq![1u32, 1u32, 1u32],
{
    let empty = Code { bytes: Seq::empty(), lines: Seq::empty(), values: Seq::empty() };
    let start = Parse::start(source, empty);
    let len = source.len() as int;
    let first = next_token(source, start.cursor);
    assert(source.subrange(0, len) =~= source);
    assert(first.token == (Lexeme {
        kind: TokenType::Number,
        line: 1,
        text: source,
        start: 0,
    }));
    assert(first.next == (Cursor { pos: len, line: 1 }));
    let last = next_token(source, first.next);
    assert(last.token.kind == TokenType::Eof);
    assert(last.next == first.next);
    assert(last.token.line == 1);

    let looking = start.advance();
    let opened = looking.advance();
    assert(opened.previous == first.token);
    assert(opened.current.kind == TokenType::Eof);
    assert(opened.nearer_than(looking));
    let operand = opened.prefix(ParseFn::Number);
    assert(operand == opened.number());
    assert(operand.nearer_than(looking));
    assert(operand.infix_loop(Precs::ASSIGN) == operand);
    assert(looking.parse_precedence(Precs::ASSIGN) == operand);
    assert(looking.expression() == operand);
    let closed = operand.consume_if(TokenType::Eof, expected_end());
    assert(closed.code == operand.code);
    assert(closed.previous.line == 1);
    let done = closed.emit(seq![OpCodes::OP_RETURN]);
    assert(done == compiled(source));
    assert(done.code.bytes =~= seq![OpCodes::OP_CONSTANT, 0u8, OpCodes::OP_RETURN]);
    assert(done.code.values =~= seq![Literal::Number(source)]);
    assert(done.code.lines =~= seq![1u32, 1u32, 1u32]);
}

} // verus!
