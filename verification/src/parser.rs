//! The single-pass compiler: a Pratt parser that writes bytecode while it
//! reads tokens.

use vstd::prelude::*;
use vstd::slice::slice_to_vec;
use vstd::string::StringSliceAdditionalSpecFns;
use crate::chunk::{Chunk, Code, Constant, Literal, OpCodes, MAX_CONSTANTS};
use crate::code::{after_op, lemma_expression_runs, lemma_reach_extends, lemma_reach_is_natural};
use crate::code::lemma_reach_splits;
use crate::rules::{get_rule, next, next_precedence, rule, ParseFn, Precedence, Precs};
use crate::rules::{lemma_openers_are_tokens, lemma_operators_are_binary};
use crate::scanner::{is_number_literal, lemma_number_token_is_literal, lemma_scan_progress};
use crate::scanner::{next_token, Cursor, Scanner};
use crate::text::{ascii, ascii_bytes};
use crate::token::{Lexeme, Token, TokenType};

verus! {

/// The model of a diagnostic: the token it points at and what it says.
pub struct Report {
    pub token: Lexeme,
    pub message: Seq<u8>,
}

/// The model of a parser in the middle of its work.
pub struct Parse {
    pub source: Seq<u8>,
    pub cursor: Cursor,
    pub previous: Lexeme,
    pub current: Lexeme,
    pub code: Code,
    pub had_error: bool,
    pub panic_mode: bool,
    pub report: Option<Report>,
}

pub open spec fn expected_expression() -> Seq<u8> {
    ascii("Expected expression."@)
}

pub open spec fn expected_closing_paren() -> Seq<u8> {
    ascii("Expected closing ')' after expression."@)
}

pub open spec fn expected_end() -> Seq<u8> {
    ascii("Expected end of expression."@)
}

pub open spec fn too_many_constants() -> Seq<u8> {
    ascii("Max constants reached."@)
}

/// The bytes that a binary operator compiles to, behind its two operands.
pub open spec fn operator_code(operator: TokenType) -> Seq<u8> {
    match operator {
        TokenType::Plus => seq![OpCodes::OP_ADD],
        TokenType::Minus => seq![OpCodes::OP_SUBSTRACT],
        TokenType::Asterisk => seq![OpCodes::OP_MULTIPLY],
        TokenType::Slash => seq![OpCodes::OP_DIVIDE],
        TokenType::EqualEqual => seq![OpCodes::OP_EQUAL],
        TokenType::NotEqual => seq![OpCodes::OP_EQUAL, OpCodes::OP_NOT],
        TokenType::Less => seq![OpCodes::OP_LESS],
        TokenType::LessEqual => seq![OpCodes::OP_GREATER, OpCodes::OP_NOT],
        TokenType::Greater => seq![OpCodes::OP_GREATER],
        TokenType::GreaterEqual => seq![OpCodes::OP_LESS, OpCodes::OP_NOT],
        _ => seq![],
    }
}

/// The bytes that a prefix operator compiles to, behind its operand.
pub open spec fn prefix_code(operator: TokenType) -> Seq<u8> {
    match operator {
        TokenType::Minus => seq![OpCodes::OP_NEGATE],
        TokenType::Not => seq![OpCodes::OP_NOT],
        _ => seq![],
    }
}

/// The byte that a literal keyword compiles to.
pub open spec fn literal_code(keyword: TokenType) -> Seq<u8> {
    match keyword {
        TokenType::Null => seq![OpCodes::OP_NULL],
        TokenType::True => seq![OpCodes::OP_TRUE],
        TokenType::False => seq![OpCodes::OP_FALSE],
        _ => seq![],
    }
}

impl Parse {
    /// The scanner's cursor lies inside the source, and every byte of the
    /// code has its line.
    pub open spec fn wf(self) -> bool {
        0 <= self.cursor.pos <= self.source.len() && self.code.wf()
    }

    /// The depth of the stack behind the code written so far, where that
    /// code is an expression or a sequence of them.
    pub open spec fn depth(self) -> Option<int> {
        self.code.reach(0, 0, self.code.bytes.len() as int)
    }

    /// What a production owes: an error stays an error; and where there is
    /// none, and the code before it left a stack of at least `least`
    /// values, the code behind it leaves `by` values more.
    pub open spec fn yields(self, before: Parse, by: int, least: int) -> bool {
        &&& before.had_error ==> self.had_error
        &&& !self.had_error && before.depth() is Some && before.depth()->0 >= least
            ==> self.depth() == Some(before.depth()->0 + by)
    }

    /// There is a report exactly where there was an error, and the parser
    /// keeps silent exactly since then.
    pub open spec fn reported(self) -> bool {
        (self.had_error <==> self.report is Some) && (self.panic_mode <==> self.had_error)
    }

    /// A bound on the tokens that are left to read: the bytes that the
    /// scanner has not passed, and one for the token in hand unless it is
    /// `Eof`.
    pub open spec fn left(self) -> int {
        self.source.len() - self.cursor.pos + if self.current.kind != TokenType::Eof {
            1int
        } else {
            0int
        }
    }

    /// Whether fewer tokens are left here than were in `before`. Every parse
    /// step that reads a token other than `Eof` makes it so; the recursive
    /// productions below ask it where they go on, which is what makes them
    /// end. They never get no for an answer: `lemma_parse_precedence_ends`
    /// and `lemma_infix_loop_ends` show that.
    pub open spec fn nearer_than(self, before: Parse) -> bool {
        0 <= self.left() < before.left()
    }

    /// Whether the two tokens in hand, where they are numbers, are number
    /// literals.
    pub open spec fn tokens_are_literals(self) -> bool {
        &&& self.previous.kind == TokenType::Number ==> is_number_literal(self.previous.text)
        &&& self.current.kind == TokenType::Number ==> is_number_literal(self.current.text)
    }

    /// Whether this state comes from `before` by reading on in the same
    /// source: the cursor in place, no more tokens left than before, and
    /// numbers that are number literals where they were before.
    pub open spec fn follows(self, before: Parse) -> bool {
        &&& self.wf()
        &&& self.source == before.source
        &&& 0 <= self.left() <= before.left()
        &&& before.tokens_are_literals() ==> self.tokens_are_literals()
        &&& before.tokens_are_literals() && before.code.numbers_are_literals()
            ==> self.code.numbers_are_literals()
    }

    /// Reports an error at `token`, unless an earlier one is still pending.
    pub open spec fn error_at(self, token: Lexeme, message: Seq<u8>) -> Parse {
        if self.panic_mode {
            self
        } else {
            Parse {
                had_error: true,
                panic_mode: true,
                report: Some(Report { token, message }),
                ..self
            }
        }
    }

    /// Moves to the next token; an `Error` token is reported at once, with
    /// its lexeme as the message.
    pub open spec fn advance(self) -> Parse {
        let scan = next_token(self.source, self.cursor);
        let moved = Parse {
            previous: self.current,
            current: scan.token,
            cursor: scan.next,
            ..self
        };
        if scan.token.kind == TokenType::Error {
            moved.error_at(scan.token, scan.token.text)
        } else {
            moved
        }
    }

    /// Moves on if the token in hand is of the expected kind, and reports
    /// `message` at it otherwise.
    pub open spec fn consume_if(self, expected: TokenType, message: Seq<u8>) -> Parse {
        if self.current.kind == expected {
            self.advance()
        } else {
            self.error_at(self.current, message)
        }
    }

    /// Writes bytes, all for the line of the token that was read last.
    pub open spec fn emit(self, bytes: Seq<u8>) -> Parse {
        Parse {
            code: Code {
                bytes: self.code.bytes + bytes,
                lines: self.code.lines + Seq::new(bytes.len(), |i: int| self.previous.line),
                values: self.code.values,
            },
            ..self
        }
    }

    /// Adds a constant and writes the instruction that loads it; where the
    /// pool is full, reports that and writes nothing.
    pub open spec fn emit_constant(self, value: Literal) -> Parse {
        if self.code.values.len() >= MAX_CONSTANTS {
            self.error_at(self.previous, too_many_constants())
        } else {
            Parse { code: self.code.add(value), ..self }.emit(
                seq![OpCodes::OP_CONSTANT, self.code.values.len() as u8],
            )
        }
    }

    /// A number literal: its digits go to the constant pool as written.
    pub open spec fn number(self) -> Parse {
        self.emit_constant(Literal::Number(self.previous.text))
    }

    /// A string literal: the bytes between its quotes go to the pool.
    pub open spec fn string(self) -> Parse {
        self.emit_constant(Literal::String(self.previous.text))
    }

    /// `null`, `true` or `false`.
    pub open spec fn literal(self) -> Parse {
        self.emit(literal_code(self.previous.kind))
    }

    /// An expression of at least the given precedence: an operand, then
    /// every operator that binds at least that tightly, each with its right
    /// operand.
    pub open spec fn parse_precedence(self, precedence: Precedence) -> Parse
        decreases self.left(), 0int,
    {
        let opened = self.advance();
        match rule(opened.previous.kind).prefix {
            None => opened.error_at(opened.previous, expected_expression()),
            Some(production) => if opened.nearer_than(self) {
                let operand = opened.prefix(production);
                if operand.nearer_than(self) {
                    operand.infix_loop(precedence)
                } else {
                    operand
                }
            } else {
                opened
            },
        }
    }

    /// The production that the token read last opens.
    pub open spec fn prefix(self, production: ParseFn) -> Parse
        decreases self.left(), 3int,
    {
        match production {
            ParseFn::Grouping => self.grouping(),
            ParseFn::Unary => self.unary(),
            ParseFn::Number => self.number(),
            ParseFn::String => self.string(),
            ParseFn::Literal => self.literal(),
            ParseFn::Binary => self,
        }
    }

    /// While the token in hand binds at least as tightly as `precedence`:
    /// reads it and compiles it as a binary operator.
    pub open spec fn infix_loop(self, precedence: Precedence) -> Parse
        decreases self.left(), 2int,
    {
        if rule(self.current.kind).precedence >= precedence {
            let operator = self.advance();
            if operator.nearer_than(self) {
                let operand = operator.binary();
                if operand.nearer_than(self) {
                    operand.infix_loop(precedence)
                } else {
                    operand
                }
            } else {
                operator
            }
        } else {
            self
        }
    }

    /// A whole expression.
    pub open spec fn expression(self) -> Parse
        decreases self.left(), 1int,
    {
        self.parse_precedence(Precs::ASSIGN)
    }

    /// What follows `(`: an expression and the closing `)`.
    pub open spec fn grouping(self) -> Parse
        decreases self.left(), 2int,
    {
        self.expression().consume_if(TokenType::RightParen, expected_closing_paren())
    }

    /// What follows a prefix operator: its operand, then its instruction.
    pub open spec fn unary(self) -> Parse
        decreases self.left(), 1int,
    {
        let operand = self.parse_precedence(Precs::UNARY);
        operand.emit(prefix_code(self.previous.kind))
    }

    /// What follows a binary operator: its right operand, which takes only
    /// operators that bind tighter, then its instructions.
    pub open spec fn binary(self) -> Parse
        decreases self.left(), 1int,
    {
        let operand = self.parse_precedence(
            next_precedence(rule(self.previous.kind).precedence),
        );
        operand.emit(operator_code(self.previous.kind))
    }

    /// The state a parser starts in: at the first byte of the source, on
    /// line 1, with two sentinel tokens and no error.
    pub open spec fn start(source: Seq<u8>, code: Code) -> Parse {
        let sentinel = Lexeme { kind: TokenType::Error, line: 0, text: Seq::empty(), start: 0 };
        Parse {
            source,
            cursor: Cursor { pos: 0, line: 1 },
            previous: sentinel,
            current: sentinel,
            code,
            had_error: false,
            panic_mode: false,
            report: None,
        }
    }

    /// One expression, the end of the source, and the return instruction.
    pub open spec fn compile(self) -> Parse {
        self.advance().expression().consume_if(TokenType::Eof, expected_end()).emit(
            seq![OpCodes::OP_RETURN],
        )
    }
}

/// Reading a token never raises the bound on the tokens left, and lowers it
/// unless the token in hand was `Eof`.
pub proof fn lemma_advance(before: Parse)
    requires
        before.wf(),
    ensures
        before.advance().wf(),
        before.advance().source == before.source,
        before.advance().code == before.code,
        before.advance().previous == before.current,
        before.advance().follows(before),
        before.current.kind != TokenType::Eof ==> before.advance().nearer_than(before),
{
    lemma_scan_progress(before.source, before.cursor);
    lemma_number_token_is_literal(before.source, before.cursor);
}

/// One more instruction of one byte changes the depth as the instruction
/// says.
pub proof fn lemma_emit_op(before: Parse, op: u8)
    requires
        before.depth() is Some,
    ensures
        before.emit(seq![op]).depth() == after_op(op, before.depth()->0),
{
    let shorter = before.code;
    let longer = before.emit(seq![op]).code;
    let n = shorter.bytes.len() as int;
    assert(longer.bytes.len() == n + 1);
    assert(longer.bytes[n] == op);
    lemma_reach_extends(longer, shorter, 0, 0, n);
    lemma_reach_splits(longer, 0, 0, n, n + 1);
    let d = before.depth()->0;
    assert(longer.reach(0, 0, n + 1) == longer.reach(n, d, n + 1));
    if op != OpCodes::OP_CONSTANT && after_op(op, d) is Some {
        assert(longer.reach(n + 1, after_op(op, d)->0, n + 1) == after_op(op, d));
    }
}

/// A load of a new constant adds one value.
pub proof fn lemma_emit_load(before: Parse, value: Literal)
    requires
        before.depth() is Some,
        before.code.values.len() < MAX_CONSTANTS,
    ensures
        before.emit_constant(value).depth() == Some(before.depth()->0 + 1),
{
    let shorter = before.code;
    let longer = before.emit_constant(value).code;
    let n = shorter.bytes.len() as int;
    assert(longer.bytes.len() == n + 2);
    assert(longer.bytes[n] == OpCodes::OP_CONSTANT);
    assert(longer.bytes[n + 1] == shorter.values.len() as u8);
    lemma_reach_extends(longer, shorter, 0, 0, n);
    lemma_reach_splits(longer, 0, 0, n, n + 2);
    let d = before.depth()->0;
    assert(longer.loads(n, n + 2));
    assert(longer.reach(n + 2, d + 1, n + 2) == Some(d + 1));
    assert(longer.reach(n, d, n + 2) == Some(d + 1));
}

/// The instructions of a binary operator take two values and leave one.
pub proof fn lemma_operator_depth(before: Parse, operator: TokenType)
    requires
        rule(operator).precedence >= Precs::ASSIGN,
        before.depth() is Some,
        before.depth()->0 >= 2,
    ensures
        before.emit(operator_code(operator)).depth() == Some(before.depth()->0 - 1),
{
    lemma_operators_are_binary(operator);
    let code = operator_code(operator);
    let first = before.emit(seq![code[0]]);
    lemma_emit_op(before, code[0]);
    if code.len() == 2 {
        lemma_emit_op(first, code[1]);
        lemma_emit_two(before, code[0], code[1]);
        assert(code =~= seq![code[0], code[1]]);
    } else {
        assert(code =~= seq![code[0]]);
    }
}

/// Writing two bytes is writing one and then the other.
pub proof fn lemma_emit_two(before: Parse, first: u8, second: u8)
    ensures
        before.emit(seq![first, second]) == before.emit(seq![first]).emit(seq![second]),
{
    let both = before.emit(seq![first, second]);
    let each = before.emit(seq![first]).emit(seq![second]);
    assert(both.code.bytes =~= each.code.bytes);
    assert(both.code.lines =~= each.code.lines);
}

/// Writing nothing changes nothing.
pub proof fn lemma_emit_none(before: Parse)
    ensures
        before.emit(seq![]) == before,
{
    let same = before.emit(seq![]);
    assert(same.code.bytes =~= before.code.bytes);
    assert(same.code.lines =~= before.code.lines);
}

/// A compile error: the token it was found at and the message. For an
/// `Error` token the message is the token's own lexeme.
#[derive(Copy, Clone, Debug)]
pub struct Diagnostic<'src> {
    pub token: Token<'src>,
    pub message: &'src [u8],
}

impl<'src> View for Diagnostic<'src> {
    type V = Report;

    open spec fn view(&self) -> Report {
        Report { token: self.token@, message: self.message@ }
    }
}

/// The parser: a scanner, the two tokens it looks at, the chunk it writes
/// to, and its error state.
pub struct Parser<'src> {
    scanner: Scanner<'src>,
    previous: Token<'src>,
    current: Token<'src>,
    chunk: Chunk,
    had_error: bool,
    panic_mode: bool,
    diagnostic: Option<Diagnostic<'src>>,
}

impl<'src> View for Parser<'src> {
    type V = Parse;

    closed spec fn view(&self) -> Parse {
        Parse {
            source: self.scanner@.source,
            cursor: self.scanner@.cursor(),
            previous: self.previous@,
            current: self.current@,
            code: self.chunk@,
            had_error: self.had_error,
            panic_mode: self.panic_mode,
            report: match self.diagnostic {
                Some(diagnostic) => Some(diagnostic@),
                None => None,
            },
        }
    }
}

impl<'src> Parser<'src> {
    /// What the scanner needs beside the parse state: its own cursors in
    /// order.
    pub closed spec fn wf(&self) -> bool {
        self.scanner@.wf() && self@.wf() && self@.reported() && self@.tokens_are_literals()
    }

    /// A parser at the start of `source`, with nothing compiled yet.
    pub fn new(source: &'src str) -> (parser: Self)
        ensures
            parser.wf(),
            parser@ == Parse::start(
                source.spec_bytes(),
                Code { bytes: Seq::empty(), lines: Seq::empty(), values: Seq::empty() },
            ),
    {
        Parser {
            scanner: Scanner::new(source),
            previous: Token::default(),
            current: Token::default(),
            chunk: Chunk::new(),
            had_error: false,
            panic_mode: false,
            diagnostic: None,
        }
    }

    /// Compiles the source into `chunk`, behind what the chunk already
    /// holds: one expression, then the return instruction. Returns whether
    /// the source compiled without an error; the error, if any, is kept for
    /// [`Parser::diagnostic`].
    pub fn compile(&mut self, chunk: &mut Chunk) -> (ok: bool)
        requires
            old(self).wf(),
            old(chunk)@.wf(),
        ensures
            final(self).wf(),
            ({
                let done = (Parse { code: old(chunk)@, ..old(self)@ }).compile();
                &&& final(chunk)@ == done.code
                &&& final(chunk)@.wf()
                &&& final(self)@ == (Parse { code: old(self)@.code, ..done })
                &&& ok == !done.had_error
                &&& done.reported()
                &&& ok && old(chunk)@.bytes.len() == 0 ==> done.code.runs(0, 0)
                &&& old(chunk)@.numbers_are_literals() ==> done.code.numbers_are_literals()
            }),
    {
        core::mem::swap(&mut self.chunk, chunk);
        proof {
            let looking = self@.advance();
            lemma_advance(self@);
            lemma_expression_ends(looking);
            let parsed = looking.expression();
            lemma_advance(parsed);
            let closed = parsed.consume_if(TokenType::Eof, expected_end());
            lemma_writes_read_nothing(closed, seq![OpCodes::OP_RETURN], Literal::String(seq![]));
        }
        self.consume();
        self.expression();
        self.consume_if(TokenType::Eof, expected_end_text());
        proof {
            if self@.depth() is Some {
                lemma_emit_op(self@, OpCodes::OP_RETURN);
                let done = self@.emit(seq![OpCodes::OP_RETURN]).code;
                lemma_reach_extends(done, self@.code, 0, 0, self@.code.bytes.len() as int);
                if self@.depth() == Some(1int) {
                    lemma_expression_runs(done, 0, 0);
                }
            }
        }
        self.finish();
        core::mem::swap(&mut self.chunk, chunk);
        !self.had_error
    }

    /// The error that stopped the compilation, if there was one.
    pub fn diagnostic(&self) -> (found: Option<Diagnostic<'src>>)
        ensures
            found is Some == self@.report is Some,
            found is Some ==> found->0@ == self@.report->0,
    {
        self.diagnostic
    }

    fn parse_precedence(&mut self, precedence: Precedence)
        requires
            old(self).wf(),
            precedence >= Precs::ASSIGN,
        ensures
            final(self).wf(),
            final(self)@ == old(self)@.parse_precedence(precedence),
            final(self)@.left() <= old(self)@.left(),
            final(self)@.yields(old(self)@, 1, 0),
        decreases old(self)@.left(), 0int,
    {
        let ghost before = self@;
        self.consume();
        proof {
            lemma_advance(before);
            if before.depth() is Some {
                lemma_reach_is_natural(before.code, 0, 0, before.code.bytes.len() as int);
            }
        }

        // The token just read opens the expression: its rule says how.
        match get_rule(self.previous.kind).prefix {
            None => {
                self.error_at_previous(expected_expression_text());
            },
            Some(production) => {
                proof {
                    lemma_openers_are_tokens(before.current.kind);
                }
                self.prefix(production);
                self.infix(precedence);
            },
        }
    }

    /// Runs the production that the token read last opens.
    fn prefix(&mut self, production: ParseFn)
        requires
            old(self).wf(),
            rule(old(self)@.previous.kind).prefix == Some(production),
        ensures
            final(self).wf(),
            final(self)@ == old(self)@.prefix(production),
            final(self)@.left() <= old(self)@.left(),
            final(self)@.yields(old(self)@, 1, 0),
        decreases old(self)@.left(), 3int,
    {
        match production {
            ParseFn::Grouping => self.grouping(),
            ParseFn::Unary => self.unary(),
            ParseFn::Number => self.number(),
            ParseFn::String => self.string(),
            ParseFn::Literal => self.literal(),
            ParseFn::Binary => {},
        }
    }

    /// What follows an operand may be a binary operator. While it binds at
    /// least as tightly as asked, it and its right operand belong to the
    /// expression in progress.
    fn infix(&mut self, precedence: Precedence)
        requires
            old(self).wf(),
            precedence >= Precs::ASSIGN,
        ensures
            final(self).wf(),
            final(self)@ == old(self)@.infix_loop(precedence),
            final(self)@.left() <= old(self)@.left(),
            final(self)@.yields(old(self)@, 0, 1),
        decreases old(self)@.left(), 2int,
    {
        while get_rule(self.current.kind).precedence >= precedence
            invariant
                self.wf(),
                precedence >= Precs::ASSIGN,
                self@.left() <= old(self)@.left(),
                self@.infix_loop(precedence) == old(self)@.infix_loop(precedence),
                self@.yields(old(self)@, 0, 1),
            ensures
                self@ == old(self)@.infix_loop(precedence),
            decreases self@.left(),
        {
            let ghost at_operator = self@;
            proof {
                lemma_operators_are_binary(at_operator.current.kind);
                lemma_advance(at_operator);
            }
            self.consume();
            self.binary();
        }
    }

    fn expression(&mut self)
        requires
            old(self).wf(),
        ensures
            final(self).wf(),
            final(self)@ == old(self)@.expression(),
            final(self)@.left() <= old(self)@.left(),
            final(self)@.yields(old(self)@, 1, 0),
        decreases old(self)@.left(), 1int,
    {
        self.parse_precedence(Precs::ASSIGN);
    }

    fn literal(&mut self)
        requires
            old(self).wf(),
        ensures
            final(self).wf(),
            final(self)@ == old(self)@.literal(),
            final(self)@.left() == old(self)@.left(),
            rule(old(self)@.previous.kind).prefix == Some(ParseFn::Literal) ==> final(self)@.yields(
                old(self)@,
                1,
                0,
            ),
    {
        proof {
            if self@.depth() is Some {
                lemma_emit_op(self@, OpCodes::OP_NULL);
                lemma_emit_op(self@, OpCodes::OP_TRUE);
                lemma_emit_op(self@, OpCodes::OP_FALSE);
            }
        }
        match self.previous.kind {
            TokenType::Null => self.emit_byte(OpCodes::OP_NULL),
            TokenType::True => self.emit_byte(OpCodes::OP_TRUE),
            TokenType::False => self.emit_byte(OpCodes::OP_FALSE),
            _ => self.emit_nothing(),
        }
    }

    fn number(&mut self)
        requires
            old(self).wf(),
        ensures
            final(self).wf(),
            final(self)@ == old(self)@.number(),
            final(self)@.left() == old(self)@.left(),
            final(self)@.yields(old(self)@, 1, 0),
    {
        let digits = slice_to_vec(self.previous.literal);
        self.emit_constant(Constant::Number(digits));
    }

    fn string(&mut self)
        requires
            old(self).wf(),
        ensures
            final(self).wf(),
            final(self)@ == old(self)@.string(),
            final(self)@.left() == old(self)@.left(),
            final(self)@.yields(old(self)@, 1, 0),
    {
        let bytes = slice_to_vec(self.previous.literal);
        self.emit_constant(Constant::String(bytes));
    }

    fn grouping(&mut self)
        requires
            old(self).wf(),
        ensures
            final(self).wf(),
            final(self)@ == old(self)@.grouping(),
            final(self)@.left() <= old(self)@.left(),
            final(self)@.yields(old(self)@, 1, 0),
        decreases old(self)@.left(), 2int,
    {
        self.expression();
        self.consume_if(TokenType::RightParen, expected_closing_paren_text());
    }

    fn unary(&mut self)
        requires
            old(self).wf(),
        ensures
            final(self).wf(),
            final(self)@ == old(self)@.unary(),
            final(self)@.left() <= old(self)@.left(),
            rule(old(self)@.previous.kind).prefix == Some(ParseFn::Unary) ==> final(self)@.yields(
                old(self)@,
                1,
                0,
            ),
        decreases old(self)@.left(), 1int,
    {
        let op = self.previous.kind;

        // The operand comes first.
        self.parse_precedence(Precs::UNARY);
        proof {
            if self@.depth() is Some {
                lemma_emit_op(self@, OpCodes::OP_NEGATE);
                lemma_emit_op(self@, OpCodes::OP_NOT);
            }
            if old(self)@.depth() is Some {
                lemma_reach_is_natural(
                    old(self)@.code,
                    0,
                    0,
                    old(self)@.code.bytes.len() as int,
                );
            }
        }

        match op {
            TokenType::Minus => self.emit_byte(OpCodes::OP_NEGATE),
            TokenType::Not => self.emit_byte(OpCodes::OP_NOT),
            _ => self.emit_nothing(),
        }
    }

    fn binary(&mut self)
        requires
            old(self).wf(),
        ensures
            final(self).wf(),
            final(self)@ == old(self)@.binary(),
            final(self)@.left() <= old(self)@.left(),
            rule(old(self)@.previous.kind).precedence >= Precs::ASSIGN ==> final(self)@.yields(
                old(self)@,
                0,
                1,
            ),
        decreases old(self)@.left(), 1int,
    {
        // The left operand is compiled already.
        let op = self.previous.kind;
        let precedence = get_rule(op).precedence;

        // The right operand takes only what binds tighter: operators of one
        // rung group to the left.
        self.parse_precedence(next(precedence));
        proof {
            if rule(op).precedence >= Precs::ASSIGN && self@.depth() is Some && self@.depth()->0
                >= 2 {
                lemma_operator_depth(self@, op);
            }
        }

        match op {
            TokenType::Plus => self.emit_byte(OpCodes::OP_ADD),
            TokenType::Minus => self.emit_byte(OpCodes::OP_SUBSTRACT),
            TokenType::Asterisk => self.emit_byte(OpCodes::OP_MULTIPLY),
            TokenType::Slash => self.emit_byte(OpCodes::OP_DIVIDE),
            TokenType::EqualEqual => self.emit_byte(OpCodes::OP_EQUAL),
            TokenType::NotEqual => self.emit_bytes(OpCodes::OP_EQUAL, OpCodes::OP_NOT),
            TokenType::Less => self.emit_byte(OpCodes::OP_LESS),
            TokenType::LessEqual => self.emit_bytes(OpCodes::OP_GREATER, OpCodes::OP_NOT),
            TokenType::Greater => self.emit_byte(OpCodes::OP_GREATER),
            TokenType::GreaterEqual => self.emit_bytes(OpCodes::OP_LESS, OpCodes::OP_NOT),
            _ => self.emit_nothing(),
        }
    }

    /// Moves to the next token of the scanner.
    fn consume(&mut self)
        requires
            old(self).wf(),
        ensures
            final(self).wf(),
            final(self)@ == old(self)@.advance(),
    {
        proof {
            lemma_advance(self@);
        }
        self.previous = self.current;
        self.current = self.scanner.scan_next_token();

        if self.current.kind == TokenType::Error {
            self.error_at_current(self.current.literal);
        }
    }

    /// Moves to the next token if the one in hand is of the expected kind.
    fn consume_if(&mut self, expected: TokenType, message: &'src [u8])
        requires
            old(self).wf(),
        ensures
            final(self).wf(),
            final(self)@ == old(self)@.consume_if(expected, message@),
            final(self)@.left() <= old(self)@.left(),
    {
        proof {
            lemma_advance(self@);
        }
        if self.current.kind == expected {
            self.consume();
        } else {
            self.error_at_current(message);
        }
    }

    fn emit_byte(&mut self, byte: u8)
        requires
            old(self).wf(),
        ensures
            final(self).wf(),
            final(self)@ == old(self)@.emit(seq![byte]),
    {
        let line = self.previous.line;
        self.chunk.write_byte(byte, line);
        proof {
            let expected = old(self)@.emit(seq![byte]);
            assert(self@.code.bytes =~= expected.code.bytes);
            assert(self@.code.lines =~= expected.code.lines);
        }
    }

    fn emit_bytes(&mut self, byte1: u8, byte2: u8)
        requires
            old(self).wf(),
        ensures
            final(self).wf(),
            final(self)@ == old(self)@.emit(seq![byte1, byte2]),
    {
        self.emit_byte(byte1);
        self.emit_byte(byte2);
        proof {
            lemma_emit_two(old(self)@, byte1, byte2);
        }
    }

    /// Where a production has no instruction of its own.
    fn emit_nothing(&mut self)
        requires
            old(self).wf(),
        ensures
            final(self).wf(),
            final(self)@ == old(self)@.emit(seq![]),
            final(self)@ == old(self)@,
    {
        proof {
            lemma_emit_none(self@);
        }
    }

    fn emit_constant(&mut self, value: Constant)
        requires
            old(self).wf(),
        ensures
            final(self).wf(),
            final(self)@ == old(self)@.emit_constant(value@),
            final(self)@.yields(old(self)@, 1, 0),
    {
        if self.chunk.values.len() >= MAX_CONSTANTS {
            self.error_at_previous(too_many_constants_text());
            return ;
        }
        proof {
            if self@.depth() is Some {
                lemma_emit_load(self@, value@);
            }
        }
        let ix = self.chunk.add_constant(value);
        self.emit_bytes(OpCodes::OP_CONSTANT, ix as u8);
    }

    fn finish(&mut self)
        requires
            old(self).wf(),
        ensures
            final(self).wf(),
            final(self)@ == old(self)@.emit(seq![OpCodes::OP_RETURN]),
    {
        self.emit_byte(OpCodes::OP_RETURN);
    }

    fn error_at_current(&mut self, message: &'src [u8])
        requires
            old(self).wf(),
        ensures
            final(self).wf(),
            final(self)@ == old(self)@.error_at(old(self)@.current, message@),
    {
        self.error_at(self.current, message);
    }

    fn error_at_previous(&mut self, message: &'src [u8])
        requires
            old(self).wf(),
        ensures
            final(self).wf(),
            final(self)@ == old(self)@.error_at(old(self)@.previous, message@),
    {
        self.error_at(self.previous, message);
    }

    /// Records an error, unless one is pending already: after the first,
    /// the parser says no more.
    fn error_at(&mut self, token: Token<'src>, message: &'src [u8])
        requires
            old(self).wf(),
        ensures
            final(self).wf(),
            final(self)@ == old(self)@.error_at(token@, message@),
    {
        if self.panic_mode {
            return ;
        }
        self.diagnostic = Some(Diagnostic { token, message });
        self.had_error = true;
        self.panic_mode = true;
    }
}

fn expected_expression_text<'a>() -> (message: &'a [u8])
    ensures
        message@ == expected_expression(),
{
    proof {
        reveal_strlit("Expected expression.");
    }
    ascii_bytes("Expected expression.")
}

fn expected_closing_paren_text<'a>() -> (message: &'a [u8])
    ensures
        message@ == expected_closing_paren(),
{
    proof {
        reveal_strlit("Expected closing ')' after expression.");
    }
    ascii_bytes("Expected closing ')' after expression.")
}

fn expected_end_text<'a>() -> (message: &'a [u8])
    ensures
        message@ == expected_end(),
{
    proof {
        reveal_strlit("Expected end of expression.");
    }
    ascii_bytes("Expected end of expression.")
}

fn too_many_constants_text<'a>() -> (message: &'a [u8])
    ensures
        message@ == too_many_constants(),
{
    proof {
        reveal_strlit("Max constants reached.");
    }
    ascii_bytes("Max constants reached.")
}

/// `!=`, `<=` and `>=` compile to the instructions of `==`, `>` and `<`,
/// each followed by `OP_NOT`.
pub proof fn lemma_derived_operators()
    ensures
        operator_code(TokenType::NotEqual) == operator_code(TokenType::EqualEqual).push(
            OpCodes::OP_NOT,
        ),
        operator_code(TokenType::LessEqual) == operator_code(TokenType::Greater).push(
            OpCodes::OP_NOT,
        ),
        operator_code(TokenType::GreaterEqual) == operator_code(TokenType::Less).push(
            OpCodes::OP_NOT,
        ),
{
    assert(operator_code(TokenType::NotEqual) =~= operator_code(TokenType::EqualEqual).push(
        OpCodes::OP_NOT,
    ));
    assert(operator_code(TokenType::LessEqual) =~= operator_code(TokenType::Greater).push(
        OpCodes::OP_NOT,
    ));
    assert(operator_code(TokenType::GreaterEqual) =~= operator_code(TokenType::Less).push(
        OpCodes::OP_NOT,
    ));
}

/// Writing bytes and reporting errors read nothing, and a new constant
/// that is a number literal, or a string, keeps the pool in shape.
pub proof fn lemma_writes_read_nothing(before: Parse, bytes: Seq<u8>, value: Literal)
    requires
        before.wf(),
    ensures
        before.emit(bytes).follows(before),
        before.emit(bytes).left() == before.left(),
        before.emit_constant(value).left() == before.left(),
        (value matches Literal::Number(digits) ==> is_number_literal(digits))
            ==> before.emit_constant(value).follows(before),
{
    let loaded = before.emit_constant(value);
    if before.code.numbers_are_literals() && (value matches Literal::Number(digits)
        ==> is_number_literal(digits)) {
        assert forall|i: int| 0 <= i < loaded.code.values.len() implies ((
        #[trigger] loaded.code.values[i]) matches Literal::Number(digits) ==> is_number_literal(
            digits,
        )) by {
            if i < before.code.values.len() {
                assert(loaded.code.values[i] == before.code.values[i]);
            }
        }
    }
}

/// The productions end, and `nearer_than` holds wherever they ask it: an
/// expression leaves fewer tokens than it found, since the token that opens
/// it is read and is not `Eof`.
pub proof fn lemma_parse_precedence_ends(before: Parse, precedence: Precedence)
    requires
        before.wf(),
        precedence >= Precs::ASSIGN,
    ensures
        before.parse_precedence(precedence).follows(before),
        rule(before.advance().previous.kind).prefix matches Some(production) ==> {
            &&& before.advance().nearer_than(before)
            &&& before.advance().prefix(production).nearer_than(before)
            &&& before.parse_precedence(precedence) == before.advance().prefix(
                production,
            ).infix_loop(precedence)
        },
    decreases before.left(), 0int,
{
    lemma_advance(before);
    let opened = before.advance();
    match rule(opened.previous.kind).prefix {
        None => {},
        Some(production) => {
            lemma_openers_are_tokens(before.current.kind);
            lemma_prefix_ends(opened, production);
            lemma_infix_loop_ends(opened.prefix(production), precedence);
        },
    }
}

/// The production that a token opens leaves no more tokens than it found.
pub proof fn lemma_prefix_ends(before: Parse, production: ParseFn)
    requires
        before.wf(),
        rule(before.previous.kind).prefix == Some(production),
    ensures
        before.prefix(production).follows(before),
    decreases before.left(), 3int,
{
    let bytes = literal_code(before.previous.kind);
    lemma_writes_read_nothing(before, bytes, Literal::Number(before.previous.text));
    lemma_writes_read_nothing(before, bytes, Literal::String(before.previous.text));
    match production {
        ParseFn::Grouping => {
            lemma_expression_ends(before);
            lemma_advance(before.expression());
        },
        ParseFn::Unary => {
            lemma_parse_precedence_ends(before, Precs::UNARY);
        },
        _ => {},
    }
}

/// The operators behind an operand leave no more tokens than they found,
/// and `nearer_than` holds wherever the loop asks it.
pub proof fn lemma_infix_loop_ends(before: Parse, precedence: Precedence)
    requires
        before.wf(),
        precedence >= Precs::ASSIGN,
    ensures
        before.infix_loop(precedence).follows(before),
        rule(before.current.kind).precedence >= precedence ==> {
            &&& before.advance().nearer_than(before)
            &&& before.advance().binary().nearer_than(before)
            &&& before.infix_loop(precedence) == before.advance().binary().infix_loop(precedence)
        },
    decreases before.left(), 2int,
{
    if rule(before.current.kind).precedence >= precedence {
        lemma_operators_are_binary(before.current.kind);
        lemma_advance(before);
        let operator = before.advance();
        lemma_binary_ends(operator);
        lemma_infix_loop_ends(operator.binary(), precedence);
    }
}

/// An expression leaves no more tokens than it found.
pub proof fn lemma_expression_ends(before: Parse)
    requires
        before.wf(),
    ensures
        before.expression().follows(before),
    decreases before.left(), 1int,
{
    lemma_parse_precedence_ends(before, Precs::ASSIGN);
}

/// A right operand and its operator leave no more tokens than they found.
pub proof fn lemma_binary_ends(before: Parse)
    requires
        before.wf(),
    ensures
        before.binary().follows(before),
    decreases before.left(), 1int,
{
    lemma_parse_precedence_ends(before, next_precedence(rule(before.previous.kind).precedence));
}

} // verus!
