//! The scanner: one token at a time over the bytes of the source.

use vstd::prelude::*;
use vstd::slice::slice_subrange;
use vstd::string::StringSliceAdditionalSpecFns;
use crate::text::{ascii, ascii_bytes};
use crate::token::{keyword, Lexeme, Token, TokenType};

verus! {

pub const TAB: u8 = 0x09;
pub const NEWLINE: u8 = 0x0a;
pub const CARRIAGE_RETURN: u8 = 0x0d;
pub const SPACE: u8 = 0x20;
pub const BANG: u8 = 0x21;
pub const DOUBLE_QUOTE: u8 = 0x22;
pub const SINGLE_QUOTE: u8 = 0x27;
pub const LEFT_PAREN: u8 = 0x28;
pub const RIGHT_PAREN: u8 = 0x29;
pub const STAR: u8 = 0x2a;
pub const PLUS: u8 = 0x2b;
pub const COMMA: u8 = 0x2c;
pub const MINUS: u8 = 0x2d;
pub const DOT: u8 = 0x2e;
pub const SLASH: u8 = 0x2f;
pub const SEMICOLON: u8 = 0x3b;
pub const LESS_THAN: u8 = 0x3c;
pub const EQUALS: u8 = 0x3d;
pub const GREATER_THAN: u8 = 0x3e;
pub const UNDERSCORE: u8 = 0x5f;
pub const LEFT_BRACE: u8 = 0x7b;
pub const RIGHT_BRACE: u8 = 0x7d;

/// A place in the source: a byte offset and the 1-based line it lies on.
pub struct Cursor {
    pub pos: int,
    pub line: u32,
}

/// What one scan yields: the token and the cursor behind it.
pub struct Scan {
    pub token: Lexeme,
    pub next: Cursor,
}

/// The classes of bytes that a run is made of.
pub enum Span {
    /// `0` to `9`.
    Digits,
    /// Letters, digits and `_`.
    Word,
    /// Everything but a line feed.
    Line,
    /// Everything but the given byte.
    Until(u8),
}

pub open spec fn is_digit_byte(c: u8) -> bool {
    0x30 <= c <= 0x39
}

pub open spec fn is_alpha_byte(c: u8) -> bool {
    0x61 <= c <= 0x7a || 0x41 <= c <= 0x5a || c == UNDERSCORE
}

pub open spec fn within(span: Span, c: u8) -> bool {
    match span {
        Span::Digits => is_digit_byte(c),
        Span::Word => is_digit_byte(c) || is_alpha_byte(c),
        Span::Line => c != NEWLINE,
        Span::Until(stop) => c != stop,
    }
}

/// The byte at `i`, or 0 where `i` lies outside the source.
pub open spec fn byte_at(src: Seq<u8>, i: int) -> u8 {
    if 0 <= i < src.len() {
        src[i]
    } else {
        0
    }
}

/// The line after `line`; the count stops at `u32::MAX`.
pub open spec fn next_line(line: u32) -> u32 {
    if line < u32::MAX {
        (line + 1) as u32
    } else {
        line
    }
}

/// The first offset at or after `from` whose byte is not in `span`, or the
/// length of the source where every byte from `from` on is in it.
pub open spec fn run_end(src: Seq<u8>, from: int, span: Span) -> int
    decreases src.len() - from,
{
    if 0 <= from < src.len() && within(span, src[from]) {
        run_end(src, from + 1, span)
    } else {
        from
    }
}

/// The line reached from `line` by passing the bytes from `from` up to `to`.
pub open spec fn line_after(src: Seq<u8>, from: int, to: int, line: u32) -> u32
    decreases to - from,
{
    if 0 <= from < to && from < src.len() {
        line_after(src, from + 1, to, if src[from] == NEWLINE { next_line(line) } else { line })
    } else {
        line
    }
}

pub proof fn lemma_run_end_bounds(src: Seq<u8>, from: int, span: Span)
    requires
        0 <= from <= src.len(),
    ensures
        from <= run_end(src, from, span) <= src.len(),
        run_end(src, from, span) < src.len() ==> !within(span, src[run_end(src, from, span)]),
        forall|i: int| from <= i < run_end(src, from, span) ==> within(span, #[trigger] src[i]),
    decreases src.len() - from,
{
    if from < src.len() && within(span, src[from]) {
        lemma_run_end_bounds(src, from + 1, span);
    }
}

/// The cursor behind the blanks and line comments that start at `at`.
pub open spec fn skip_blank(src: Seq<u8>, at: Cursor) -> Cursor
    decreases src.len() - at.pos,
{
    if 0 <= at.pos < src.len() {
        let c = src[at.pos];
        if c == SPACE || c == TAB || c == CARRIAGE_RETURN {
            skip_blank(src, Cursor { pos: at.pos + 1, line: at.line })
        } else if c == NEWLINE {
            skip_blank(src, Cursor { pos: at.pos + 1, line: next_line(at.line) })
        } else if c == SLASH && byte_at(src, at.pos + 1) == SLASH {
            proof {
                lemma_run_end_bounds(src, at.pos + 1, Span::Line);
            }
            skip_blank(src, Cursor { pos: run_end(src, at.pos + 1, Span::Line), line: at.line })
        } else {
            at
        }
    } else {
        at
    }
}

/// The kind of a token that is the single byte `c`, whatever follows it.
pub open spec fn single_kind(c: u8) -> Option<TokenType> {
    if c == LEFT_BRACE {
        Some(TokenType::LeftBrace)
    } else if c == RIGHT_BRACE {
        Some(TokenType::RightBrace)
    } else if c == LEFT_PAREN {
        Some(TokenType::LeftParen)
    } else if c == RIGHT_PAREN {
        Some(TokenType::RightParen)
    } else if c == COMMA {
        Some(TokenType::Comma)
    } else if c == DOT {
        Some(TokenType::Dot)
    } else if c == MINUS {
        Some(TokenType::Minus)
    } else if c == PLUS {
        Some(TokenType::Plus)
    } else if c == SEMICOLON {
        Some(TokenType::Semicolon)
    } else if c == STAR {
        Some(TokenType::Asterisk)
    } else if c == SLASH {
        Some(TokenType::Slash)
    } else {
        None
    }
}

/// The kind of a token that starts with `c` and takes a following `=` with
/// it: `joined` says whether `=` follows.
pub open spec fn pair_kind(c: u8, joined: bool) -> Option<TokenType> {
    if c == BANG {
        Some(if joined { TokenType::NotEqual } else { TokenType::Not })
    } else if c == EQUALS {
        Some(if joined { TokenType::EqualEqual } else { TokenType::Equal })
    } else if c == GREATER_THAN {
        Some(if joined { TokenType::GreaterEqual } else { TokenType::Greater })
    } else if c == LESS_THAN {
        Some(if joined { TokenType::LessEqual } else { TokenType::Less })
    } else {
        None
    }
}

pub open spec fn unexpected_character() -> Seq<u8> {
    ascii("Unexpected character."@)
}

pub open spec fn unterminated_string() -> Seq<u8> {
    ascii("Unterminated string at the end of file."@)
}

/// The token whose lexeme is the bytes of the source from `from` up to `to`.
pub open spec fn lexeme(src: Seq<u8>, from: int, to: int, kind: TokenType, line: u32) -> Scan {
    Scan {
        token: Lexeme { kind, line, text: src.subrange(from, to), start: from },
        next: Cursor { pos: to, line },
    }
}

/// Where the number that starts at `from` ends: behind its digits, and
/// behind a fraction where a dot and a digit follow them.
pub open spec fn number_end(src: Seq<u8>, from: int) -> int {
    let whole = run_end(src, from, Span::Digits);
    if byte_at(src, whole) == DOT && is_digit_byte(byte_at(src, whole + 1)) {
        run_end(src, whole + 1, Span::Digits)
    } else {
        whole
    }
}

/// The token that starts at the first byte at or after `at` that is neither
/// blank nor inside a line comment, and the cursor behind that token.
pub open spec fn next_token(src: Seq<u8>, at: Cursor) -> Scan {
    let begin = skip_blank(src, at);
    let p = begin.pos;
    let line = begin.line;
    if !(0 <= p < src.len()) {
        Scan { token: Lexeme { kind: TokenType::Eof, line, text: Seq::empty(), start: p }, next: begin }
    } else {
        let c = src[p];
        if single_kind(c) is Some {
            lexeme(src, p, p + 1, single_kind(c)->0, line)
        } else if pair_kind(c, true) is Some {
            let joined = byte_at(src, p + 1) == EQUALS;
            lexeme(src, p, if joined { p + 2 } else { p + 1 }, pair_kind(c, joined)->0, line)
        } else if c == DOUBLE_QUOTE || c == SINGLE_QUOTE {
            let close = run_end(src, p + 1, Span::Until(c));
            let last = line_after(src, p + 1, close, line);
            if close < src.len() {
                Scan {
                    token: Lexeme {
                        kind: TokenType::String,
                        line: last,
                        text: src.subrange(p + 1, close),
                        start: p + 1,
                    },
                    next: Cursor { pos: close + 1, line: last },
                }
            } else {
                Scan {
                    token: Lexeme {
                        kind: TokenType::Error,
                        line: last,
                        text: unterminated_string(),
                        start: p,
                    },
                    next: Cursor { pos: close, line: last },
                }
            }
        } else if is_digit_byte(c) {
            lexeme(src, p, number_end(src, p), TokenType::Number, line)
        } else if is_alpha_byte(c) {
            let end = run_end(src, p, Span::Word);
            lexeme(src, p, end, keyword(src.subrange(p, end)), line)
        } else {
            Scan {
                token: Lexeme { kind: TokenType::Error, line, text: unexpected_character(), start: p },
                next: Cursor { pos: p + 1, line },
            }
        }
    }
}

/// The model of a scanner: the source and the two cursors into it.
pub struct ScannerState {
    pub source: Seq<u8>,
    pub start: int,
    pub current: int,
    pub line: u32,
}

impl ScannerState {
    /// Both cursors lie inside the source, `start` not behind `current`.
    pub open spec fn wf(self) -> bool {
        0 <= self.start <= self.current <= self.source.len()
    }

    /// Where the next scan begins.
    pub open spec fn cursor(self) -> Cursor {
        Cursor { pos: self.current, line: self.line }
    }
}

/// A single-pass scanner over borrowed source text. It holds the source, the
/// offset at which the token in progress starts, the offset of the next
/// byte to read, and the current line.
pub struct Scanner<'src> {
    source: &'src [u8],
    start: usize,
    current: usize,
    line: u32,
}

impl<'src> View for Scanner<'src> {
    type V = ScannerState;

    closed spec fn view(&self) -> ScannerState {
        ScannerState {
            source: self.source@,
            start: self.start as int,
            current: self.current as int,
            line: self.line,
        }
    }
}

/// Whether `c` is one of `0` to `9`.
pub fn is_digit(c: u8) -> (yes: bool)
    ensures
        yes == is_digit_byte(c),
{
    0x30 <= c && c <= 0x39
}

/// Whether `c` is a letter or `_`.
pub fn is_alpha(c: u8) -> (yes: bool)
    ensures
        yes == is_alpha_byte(c),
{
    (0x61 <= c && c <= 0x7a) || (0x41 <= c && c <= 0x5a) || c == UNDERSCORE
}

impl<'src> Scanner<'src> {
    /// A scanner at the first byte of `source`, on line 1.
    pub fn new(source: &'src str) -> (scanner: Self)
        ensures
            scanner@ == (ScannerState {
                source: source.spec_bytes(),
                start: 0,
                current: 0,
                line: 1,
            }),
            scanner@.wf(),
    {
        Scanner { source: source.as_bytes(), start: 0, current: 0, line: 1 }
    }

    /// Scans the next token and moves behind it. At the end of the source
    /// the token is `Eof`, and stays so on every later call. The lexeme of
    /// every token but `Eof` and `Error` is the slice of the source at the
    /// token's `start`; lines never go down; and every token but `Eof`
    /// takes at least one byte.
    pub fn scan_next_token(&mut self) -> (token: Token<'src>)
        requires
            old(self)@.wf(),
        ensures
            final(self)@.wf(),
            final(self)@.source == old(self)@.source,
            token@ == next_token(old(self)@.source, old(self)@.cursor()).token,
            final(self)@.cursor() == next_token(old(self)@.source, old(self)@.cursor()).next,
            final(self)@.start == skip_blank(old(self)@.source, old(self)@.cursor()).pos,
            token.kind != TokenType::Eof && token.kind != TokenType::Error ==> token.start
                + token.literal@.len() <= old(self)@.source.len() && old(self)@.source.subrange(
                token.start as int,
                token.start + token.literal@.len(),
            ) == token.literal@,
            old(self)@.line <= token.line == final(self)@.line,
            token.kind != TokenType::Eof ==> old(self)@.current < final(self)@.current,
            token.kind == TokenType::Eof ==> final(self)@.current == old(self)@.source.len(),
    {
        proof {
            lemma_lexeme_is_source_slice(self@.source, self@.cursor());
            lemma_lines_never_decrease(self@.source, self@.cursor());
            lemma_scan_progress(self@.source, self@.cursor());
        }
        self.skip_whitespace();
        self.start = self.current;

        if self.is_at_end() {
            let token = self.make_token(TokenType::Eof);
            assert(token@.text =~= Seq::<u8>::empty());
            return token;
        }
        let c = self.consume();
        if c == LEFT_BRACE {
            self.make_token(TokenType::LeftBrace)
        } else if c == RIGHT_BRACE {
            self.make_token(TokenType::RightBrace)
        } else if c == LEFT_PAREN {
            self.make_token(TokenType::LeftParen)
        } else if c == RIGHT_PAREN {
            self.make_token(TokenType::RightParen)
        } else if c == COMMA {
            self.make_token(TokenType::Comma)
        } else if c == DOT {
            self.make_token(TokenType::Dot)
        } else if c == MINUS {
            self.make_token(TokenType::Minus)
        } else if c == PLUS {
            self.make_token(TokenType::Plus)
        } else if c == SEMICOLON {
            self.make_token(TokenType::Semicolon)
        } else if c == STAR {
            self.make_token(TokenType::Asterisk)
        } else if c == SLASH {
            // Comments never get here: skip_whitespace has passed them.
            self.make_token(TokenType::Slash)
        } else if c == BANG {
            self.make_token_if(EQUALS, TokenType::NotEqual, TokenType::Not)
        } else if c == EQUALS {
            self.make_token_if(EQUALS, TokenType::EqualEqual, TokenType::Equal)
        } else if c == GREATER_THAN {
            self.make_token_if(EQUALS, TokenType::GreaterEqual, TokenType::Greater)
        } else if c == LESS_THAN {
            self.make_token_if(EQUALS, TokenType::LessEqual, TokenType::Less)
        } else if c == DOUBLE_QUOTE || c == SINGLE_QUOTE {
            self.make_string()
        } else if is_digit(c) {
            self.make_number()
        } else if is_alpha(c) {
            self.make_identifier()
        } else {
            self.make_error_token(unexpected_character_text())
        }
    }

    /// Scans the rest of the source: every token up to `Eof`, which comes
    /// last and only there.
    pub fn scan_all(&mut self) -> (tokens: Vec<Token<'src>>)
        requires
            old(self)@.wf(),
        ensures
            final(self)@.wf(),
            final(self)@.source == old(self)@.source,
            tokens@.len() >= 1,
            tokens@.len() <= old(self)@.source.len() - old(self)@.current + 1,
            forall|i: int|
                0 <= i < tokens@.len() ==> (#[trigger] tokens@[i])@ == scan_from(
                    old(self)@.source,
                    old(self)@.cursor(),
                    i as nat,
                ).token,
            forall|i: int|
                0 <= i < tokens@.len() ==> ((#[trigger] tokens@[i]).kind == TokenType::Eof <==> i
                    == tokens@.len() - 1),
    {
        let ghost src = self@.source;
        let ghost begin = self@.cursor();
        let mut tokens: Vec<Token<'src>> = Vec::new();
        loop
            invariant_except_break
                self@.cursor() == cursor_after(src, begin, tokens@.len()),
                tokens@.len() <= self@.current - begin.pos,
                forall|i: int|
                    0 <= i < tokens@.len() ==> (#[trigger] tokens@[i]).kind != TokenType::Eof,
            invariant
                self@.wf(),
                self@.source == src,
                begin == old(self)@.cursor(),
                src == old(self)@.source,
                0 <= begin.pos <= src.len(),
                forall|i: int|
                    0 <= i < tokens@.len() ==> (#[trigger] tokens@[i])@ == scan_from(
                        src,
                        begin,
                        i as nat,
                    ).token,
            ensures
                self@.wf(),
                self@.source == src,
                tokens@.len() >= 1,
                tokens@.len() <= src.len() - begin.pos + 1,
                forall|i: int|
                    0 <= i < tokens@.len() ==> (#[trigger] tokens@[i])@ == scan_from(
                        src,
                        begin,
                        i as nat,
                    ).token,
                forall|i: int|
                    0 <= i < tokens@.len() ==> ((#[trigger] tokens@[i]).kind == TokenType::Eof <==> i
                        == tokens@.len() - 1),
            decreases src.len() - self@.current,
        {
            proof {
                lemma_scan_from_cursor(src, begin, tokens@.len());
            }
            let token = self.scan_next_token();
            let done = token.kind == TokenType::Eof;
            tokens.push(token);
            if done {
                break ;
            }
        }
        tokens
    }

    /// Passes blanks, line feeds and line comments, counting the lines.
    fn skip_whitespace(&mut self)
        requires
            old(self)@.wf(),
        ensures
            final(self)@.wf(),
            final(self)@.source == old(self)@.source,
            final(self)@.start == old(self)@.start,
            final(self)@.cursor() == skip_blank(old(self)@.source, old(self)@.cursor()),
    {
        while !self.is_at_end()
            invariant
                self@.wf(),
                self@.source == old(self)@.source,
                self@.start == old(self)@.start,
                skip_blank(self@.source, self@.cursor()) == skip_blank(
                    old(self)@.source,
                    old(self)@.cursor(),
                ),
            ensures
                skip_blank(self@.source, self@.cursor()) == self@.cursor(),
            decreases self@.source.len() - self@.current,
        {
            let c = self.peek();
            if c == SPACE || c == TAB || c == CARRIAGE_RETURN {
                self.consume();
            } else if c == NEWLINE {
                self.consume();
                self.next_line();
            } else if c == SLASH && self.peek_forward() == SLASH {
                // A line comment: pass everything up to the end of the line.
                let ghost from = self@.current;
                self.consume();
                while !self.is_at_end() && self.peek() != NEWLINE
                    invariant
                        self@.wf(),
                        self@.source == old(self)@.source,
                        self@.start == old(self)@.start,
                        from < self@.current,
                        run_end(self@.source, self@.current, Span::Line) == run_end(
                            self@.source,
                            from + 1,
                            Span::Line,
                        ),
                        skip_blank(
                            self@.source,
                            Cursor { pos: run_end(self@.source, from + 1, Span::Line), line: self@.line },
                        ) == skip_blank(old(self)@.source, old(self)@.cursor()),
                    decreases self@.source.len() - self@.current,
                {
                    self.consume();
                }
            } else {
                break;
            }
        }
    }

    /// The token of the given kind whose lexeme runs from `start` to `current`.
    fn make_token(&self, kind: TokenType) -> (token: Token<'src>)
        requires
            self@.wf(),
        ensures
            token@ == lexeme(self@.source, self@.start, self@.current, kind, self@.line).token,
    {
        let literal = slice_subrange(self.source, self.start, self.current);
        Token { literal, kind, line: self.line, start: self.start }
    }

    /// Takes a following `expected` into the token, which is then of kind
    /// `yes`; without it the token is of kind `no`.
    fn make_token_if(&mut self, expected: u8, yes: TokenType, no: TokenType) -> (token: Token<'src>)
        requires
            old(self)@.wf(),
        ensures
            final(self)@.wf(),
            final(self)@.source == old(self)@.source,
            final(self)@.start == old(self)@.start,
            final(self)@.line == old(self)@.line,
            byte_at(old(self)@.source, old(self)@.current) == expected
                && old(self)@.current < old(self)@.source.len() ==> final(self)@.current == old(
                self,
            )@.current + 1 && token@ == lexeme(
                old(self)@.source,
                old(self)@.start,
                old(self)@.current + 1,
                yes,
                old(self)@.line,
            ).token,
            !(byte_at(old(self)@.source, old(self)@.current) == expected
                && old(self)@.current < old(self)@.source.len()) ==> final(self)@.current == old(
                self,
            )@.current && token@ == lexeme(
                old(self)@.source,
                old(self)@.start,
                old(self)@.current,
                no,
                old(self)@.line,
            ).token,
    {
        let kind = if self.matches(expected) { yes } else { no };
        self.make_token(kind)
    }

    /// Scans a string whose opening quote was just consumed.
    fn make_string(&mut self) -> (token: Token<'src>)
        requires
            old(self)@.wf(),
            old(self)@.current == old(self)@.start + 1,
        ensures
            final(self)@.wf(),
            final(self)@.source == old(self)@.source,
            ({
                let src = old(self)@.source;
                let p = old(self)@.start;
                let close = run_end(src, p + 1, Span::Until(src[p]));
                let last = line_after(src, p + 1, close, old(self)@.line);
                &&& final(self)@.line == last
                &&& final(self)@.start == old(self)@.start
                &&& if close < src.len() {
                    &&& final(self)@.current == close + 1
                    &&& token@ == (Lexeme {
                        kind: TokenType::String,
                        line: last,
                        text: src.subrange(p + 1, close),
                        start: p + 1,
                    })
                } else {
                    &&& final(self)@.current == close
                    &&& token@ == (Lexeme {
                        kind: TokenType::Error,
                        line: last,
                        text: unterminated_string(),
                        start: p,
                    })
                }
            }),
    {
        let closing = self.peek_back();
        let ghost src = self@.source;
        let ghost p = self@.start;
        let ghost line = self@.line;
        while !self.is_at_end() && self.peek() != closing
            invariant
                self@.wf(),
                self@.source == src,
                self@.start == p,
                p < self@.current,
                run_end(src, self@.current, Span::Until(closing)) == run_end(
                    src,
                    p + 1,
                    Span::Until(closing),
                ),
                line_after(
                    src,
                    self@.current,
                    run_end(src, p + 1, Span::Until(closing)),
                    self@.line,
                ) == line_after(src, p + 1, run_end(src, p + 1, Span::Until(closing)), line),
            decreases src.len() - self@.current,
        {
            proof {
                lemma_run_end_bounds(src, self@.current, Span::Until(closing));
            }
            if self.peek() == NEWLINE {
                self.next_line();
            }
            self.consume();
        }

        if self.is_at_end() {
            self.make_error_token(unterminated_string_text())
        } else {
            // Take the closing quote; the lexeme lies between the two.
            let first = self.start + 1;
            let literal = slice_subrange(self.source, first, self.current);
            self.consume();
            Token { literal, kind: TokenType::String, line: self.line, start: first }
        }
    }

    /// Scans a number whose first digit was just consumed.
    fn make_number(&mut self) -> (token: Token<'src>)
        requires
            old(self)@.wf(),
            old(self)@.current == old(self)@.start + 1,
            is_digit_byte(old(self)@.source[old(self)@.start]),
        ensures
            final(self)@.wf(),
            final(self)@.source == old(self)@.source,
            final(self)@.start == old(self)@.start,
            final(self)@.line == old(self)@.line,
            final(self)@.current == number_end(old(self)@.source, old(self)@.start),
            token@ == lexeme(
                old(self)@.source,
                old(self)@.start,
                number_end(old(self)@.source, old(self)@.start),
                TokenType::Number,
                old(self)@.line,
            ).token,
    {
        let ghost src = self@.source;
        let ghost p = self@.start;
        while is_digit(self.peek())
            invariant
                self@.wf(),
                self@.source == src,
                self@.start == p,
                self@.line == old(self)@.line,
                p < self@.current,
                run_end(src, self@.current, Span::Digits) == run_end(src, p, Span::Digits),
            decreases src.len() - self@.current,
        {
            self.consume();
        }

        if self.peek() == DOT && is_digit(self.peek_forward()) {
            // Take the dot, then the digits of the fraction.
            self.consume();
            let ghost dot = self@.current - 1;
            while is_digit(self.peek())
                invariant
                    self@.wf(),
                    self@.source == src,
                    self@.start == p,
                    self@.line == old(self)@.line,
                    dot < self@.current,
                    run_end(src, self@.current, Span::Digits) == run_end(
                        src,
                        dot + 1,
                        Span::Digits,
                    ),
                decreases src.len() - self@.current,
            {
                self.consume();
            }
        }

        self.make_token(TokenType::Number)
    }

    /// Scans a word whose first byte was just consumed.
    fn make_identifier(&mut self) -> (token: Token<'src>)
        requires
            old(self)@.wf(),
            old(self)@.current == old(self)@.start + 1,
            is_alpha_byte(old(self)@.source[old(self)@.start]),
        ensures
            final(self)@.wf(),
            final(self)@.source == old(self)@.source,
            final(self)@.start == old(self)@.start,
            final(self)@.line == old(self)@.line,
            final(self)@.current == run_end(old(self)@.source, old(self)@.start, Span::Word),
            token@ == lexeme(
                old(self)@.source,
                old(self)@.start,
                final(self)@.current,
                keyword(old(self)@.source.subrange(old(self)@.start, final(self)@.current)),
                old(self)@.line,
            ).token,
    {
        let ghost src = self@.source;
        let ghost p = self@.start;
        loop
            invariant
                self@.wf(),
                self@.source == src,
                self@.start == p,
                self@.line == old(self)@.line,
                p < self@.current,
                run_end(src, self@.current, Span::Word) == run_end(src, p, Span::Word),
            ensures
                self@.current == run_end(src, p, Span::Word),
            decreases src.len() - self@.current,
        {
            let c = self.peek();
            if !(is_digit(c) || is_alpha(c)) {
                break;
            }
            self.consume();
        }

        let literal = slice_subrange(self.source, self.start, self.current);
        self.make_token(TokenType::from_literal(literal))
    }

    /// An `Error` token that carries `reason` in place of a lexeme.
    fn make_error_token(&self, reason: &'src [u8]) -> (token: Token<'src>)
        ensures
            token@ == (Lexeme {
                kind: TokenType::Error,
                line: self@.line,
                text: reason@,
                start: self@.start,
            }),
    {
        Token { literal: reason, kind: TokenType::Error, line: self.line, start: self.start }
    }

    /// Counts one more line, up to `u32::MAX`.
    fn next_line(&mut self)
        ensures
            final(self)@ == (ScannerState { line: next_line(old(self)@.line), ..old(self)@ }),
    {
        if self.line < u32::MAX {
            self.line += 1;
        }
    }

    /// Reads the byte at the cursor and moves past it.
    fn consume(&mut self) -> (c: u8)
        requires
            old(self)@.wf(),
            old(self)@.current < old(self)@.source.len(),
        ensures
            final(self)@ == (ScannerState { current: old(self)@.current + 1, ..old(self)@ }),
            c == old(self)@.source[old(self)@.current],
    {
        assert(self.source@.len() == self.source.len());
        self.current += 1;
        self.source[self.current - 1]
    }

    /// The byte at the cursor, or 0 at the end of the source.
    fn peek(&self) -> (c: u8)
        requires
            self@.wf(),
        ensures
            c == byte_at(self@.source, self@.current),
    {
        if self.is_at_end() {
            0
        } else {
            self.source[self.current]
        }
    }

    /// The byte behind the one at the cursor, or 0 where there is none.
    fn peek_forward(&self) -> (c: u8)
        requires
            self@.wf(),
        ensures
            c == byte_at(self@.source, self@.current + 1),
    {
        assert(self.source@.len() == self.source.len());
        if self.is_at_end() || self.current + 1 >= self.source.len() {
            0
        } else {
            self.source[self.current + 1]
        }
    }

    /// The byte that was consumed last.
    fn peek_back(&self) -> (c: u8)
        requires
            self@.wf(),
            self@.current > 0,
        ensures
            c == self@.source[self@.current - 1],
    {
        self.source[self.current - 1]
    }

    /// Moves past the byte at the cursor if it is `expected`.
    fn matches(&mut self, expected: u8) -> (consumed: bool)
        requires
            old(self)@.wf(),
        ensures
            consumed == (old(self)@.current < old(self)@.source.len() && old(self)@.source[old(
                self,
            )@.current] == expected),
            final(self)@ == (ScannerState {
                current: if consumed {
                    old(self)@.current + 1
                } else {
                    old(self)@.current
                },
                ..old(self)@
            }),
    {
        assert(self.source@.len() == self.source.len());
        let consumed = !self.is_at_end() && self.peek() == expected;
        if consumed {
            self.current += 1
        }
        consumed
    }

    /// Whether every byte of the source has been read.
    fn is_at_end(&self) -> (at_end: bool)
        ensures
            at_end == (self@.current >= self@.source.len()),
    {
        self.current >= self.source.len()
    }
}

/// The reason of the error token for a byte that starts no token.
fn unexpected_character_text<'a>() -> (reason: &'a [u8])
    ensures
        reason@ == unexpected_character(),
{
    proof {
        reveal_strlit("Unexpected character.");
    }
    ascii_bytes("Unexpected character.")
}

/// The reason of the error token for a string without its closing quote.
fn unterminated_string_text<'a>() -> (reason: &'a [u8])
    ensures
        reason@ == unterminated_string(),
{
    proof {
        reveal_strlit("Unterminated string at the end of file.");
    }
    ascii_bytes("Unterminated string at the end of file.")
}

/// Skipping blanks moves forward, stays inside the source and never lowers
/// the line.
pub proof fn lemma_skip_blank_bounds(src: Seq<u8>, at: Cursor)
    requires
        0 <= at.pos <= src.len(),
    ensures
        at.pos <= skip_blank(src, at).pos <= src.len(),
        at.line <= skip_blank(src, at).line,
    decreases src.len() - at.pos,
{
    if at.pos < src.len() {
        let c = src[at.pos];
        if c == SPACE || c == TAB || c == CARRIAGE_RETURN {
            lemma_skip_blank_bounds(src, Cursor { pos: at.pos + 1, line: at.line });
        } else if c == NEWLINE {
            lemma_skip_blank_bounds(src, Cursor { pos: at.pos + 1, line: next_line(at.line) });
        } else if c == SLASH && byte_at(src, at.pos + 1) == SLASH {
            lemma_run_end_bounds(src, at.pos + 1, Span::Line);
            lemma_skip_blank_bounds(
                src,
                Cursor { pos: run_end(src, at.pos + 1, Span::Line), line: at.line },
            );
        }
    }
}

/// Passing bytes never lowers the line.
pub proof fn lemma_line_after_grows(src: Seq<u8>, from: int, to: int, line: u32)
    ensures
        line <= line_after(src, from, to, line),
    decreases to - from,
{
    if 0 <= from < to && from < src.len() {
        lemma_line_after_grows(
            src,
            from + 1,
            to,
            if src[from] == NEWLINE {
                next_line(line)
            } else {
                line
            },
        );
    }
}

/// Every scan moves forward inside the source; one that yields anything but
/// `Eof` moves by at least one byte, and `Eof` comes exactly at the end.
pub proof fn lemma_scan_progress(src: Seq<u8>, at: Cursor)
    requires
        0 <= at.pos <= src.len(),
    ensures
        at.pos <= next_token(src, at).next.pos <= src.len(),
        next_token(src, at).token.kind != TokenType::Eof ==> at.pos < next_token(src, at).next.pos,
        next_token(src, at).token.kind == TokenType::Eof ==> next_token(src, at).next.pos
            == src.len(),
{
    lemma_skip_blank_bounds(src, at);
    let p = skip_blank(src, at).pos;
    if p < src.len() {
        let c = src[p];
        lemma_run_end_bounds(src, p + 1, Span::Until(c));
        lemma_run_end_bounds(src, p, Span::Digits);
        lemma_run_end_bounds(src, p, Span::Word);
        let whole = run_end(src, p, Span::Digits);
        if whole + 1 <= src.len() {
            lemma_run_end_bounds(src, whole + 1, Span::Digits);
        }
        lemma_keyword_is_word(src.subrange(p, run_end(src, p, Span::Word)));
    }
}

/// A word is a keyword or an identifier: never `Eof`, never `Error`.
pub proof fn lemma_keyword_is_word(text: Seq<u8>)
    ensures
        keyword(text) != TokenType::Eof,
        keyword(text) != TokenType::Error,
        keyword(text) != TokenType::Number,
        keyword(text) != TokenType::String,
{
}

/// The lexeme of every token but `Eof` and `Error` is the slice of the source
/// that starts at the token's `start`.
pub proof fn lemma_lexeme_is_source_slice(src: Seq<u8>, at: Cursor)
    requires
        0 <= at.pos <= src.len(),
    ensures
        ({
            let t = next_token(src, at).token;
            t.kind != TokenType::Eof && t.kind != TokenType::Error ==> {
                &&& at.pos <= t.start
                &&& t.start + t.text.len() <= src.len()
                &&& src.subrange(t.start, t.start + t.text.len()) == t.text
            }
        }),
{
    lemma_skip_blank_bounds(src, at);
    let p = skip_blank(src, at).pos;
    if p < src.len() {
        let c = src[p];
        lemma_run_end_bounds(src, p + 1, Span::Until(c));
        lemma_run_end_bounds(src, p, Span::Digits);
        lemma_run_end_bounds(src, p, Span::Word);
        let whole = run_end(src, p, Span::Digits);
        if whole + 1 <= src.len() {
            lemma_run_end_bounds(src, whole + 1, Span::Digits);
        }
        lemma_keyword_is_word(src.subrange(p, run_end(src, p, Span::Word)));
    }
}

/// Lines never go down: a token's line is at least the line the scan began
/// on, and the next scan begins on the token's line.
pub proof fn lemma_lines_never_decrease(src: Seq<u8>, at: Cursor)
    requires
        0 <= at.pos <= src.len(),
    ensures
        at.line <= next_token(src, at).token.line,
        next_token(src, at).next.line == next_token(src, at).token.line,
{
    lemma_skip_blank_bounds(src, at);
    let begin = skip_blank(src, at);
    if begin.pos < src.len() {
        let c = src[begin.pos];
        lemma_line_after_grows(
            src,
            begin.pos + 1,
            run_end(src, begin.pos + 1, Span::Until(c)),
            begin.line,
        );
    }
}

/// The scan number `n`, counted from 0, of the scans that start at `at`.
pub open spec fn scan_from(src: Seq<u8>, at: Cursor, n: nat) -> Scan
    decreases n,
{
    if n == 0 {
        next_token(src, at)
    } else {
        scan_from(src, next_token(src, at).next, (n - 1) as nat)
    }
}

/// The cursor behind the first `n` scans that start at `at`.
pub open spec fn cursor_after(src: Seq<u8>, at: Cursor, n: nat) -> Cursor
    decreases n,
{
    if n == 0 {
        at
    } else {
        cursor_after(src, next_token(src, at).next, (n - 1) as nat)
    }
}

/// The scan number `n` is the scan at the cursor behind the `n` scans
/// before it, and leaves the cursor behind `n + 1` scans.
pub proof fn lemma_scan_from_cursor(src: Seq<u8>, at: Cursor, n: nat)
    ensures
        scan_from(src, at, n) == next_token(src, cursor_after(src, at, n)),
        cursor_after(src, at, n + 1) == next_token(src, cursor_after(src, at, n)).next,
    decreases n,
{
    let behind = next_token(src, at).next;
    assert(cursor_after(src, at, n + 1) == cursor_after(src, behind, n));
    if n > 0 {
        lemma_scan_from_cursor(src, behind, (n - 1) as nat);
    } else {
        assert(cursor_after(src, behind, 0) == behind);
    }
}

/// The tokens of a source end with `Eof`: from any cursor, `Eof` comes after
/// at most as many other tokens as there are bytes left.
pub proof fn lemma_scan_reaches_eof(src: Seq<u8>, at: Cursor) -> (n: nat)
    requires
        0 <= at.pos <= src.len(),
    ensures
        n <= src.len() - at.pos,
        scan_from(src, at, n).token.kind == TokenType::Eof,
        forall|i: nat| i < n ==> (#[trigger] scan_from(src, at, i)).token.kind != TokenType::Eof,
    decreases src.len() - at.pos,
{
    lemma_scan_progress(src, at);
    if next_token(src, at).token.kind == TokenType::Eof {
        0
    } else {
        let rest = lemma_scan_reaches_eof(src, next_token(src, at).next);
        let n = rest + 1;
        assert forall|i: nat| i < n implies (#[trigger] scan_from(src, at, i)).token.kind
            != TokenType::Eof by {
            if i > 0 {
                assert(scan_from(src, at, i) == scan_from(
                    src,
                    next_token(src, at).next,
                    (i - 1) as nat,
                ));
            }
        }
        n
    }
}

/// Once `Eof` has come, every later scan yields `Eof` at the same place.
pub proof fn lemma_eof_stays(src: Seq<u8>, at: Cursor)
    requires
        0 <= at.pos <= src.len(),
        next_token(src, at).token.kind == TokenType::Eof,
    ensures
        next_token(src, next_token(src, at).next) == next_token(src, at),
{
    lemma_scan_progress(src, at);
    lemma_skip_blank_bounds(src, at);
    let p = skip_blank(src, at).pos;
    if p < src.len() {
        let c = src[p];
        lemma_keyword_is_word(src.subrange(p, run_end(src, p, Span::Word)));
    }
}

/// Whether `text` is one number literal and nothing else: digits, and
/// possibly a dot with more digits behind it.
pub open spec fn is_number_literal(text: Seq<u8>) -> bool {
    text.len() > 0 && is_digit_byte(text[0]) && number_end(text, 0) == text.len()
}

/// A run inside a slice of the source ends where it ends in the source, or
/// where the slice ends.
pub proof fn lemma_run_end_in_slice(src: Seq<u8>, low: int, high: int, from: int, span: Span)
    requires
        0 <= low <= from <= high <= src.len(),
    ensures
        run_end(src.subrange(low, high), from - low, span) == if run_end(src, from, span) < high {
            run_end(src, from, span) - low
        } else {
            high - low
        },
    decreases high - from,
{
    lemma_run_end_bounds(src, from, span);
    if from < high && within(span, src[from]) {
        lemma_run_end_in_slice(src, low, high, from + 1, span);
    }
}

/// The lexeme of a `Number` token is a number literal.
pub proof fn lemma_number_token_is_literal(src: Seq<u8>, at: Cursor)
    requires
        0 <= at.pos <= src.len(),
    ensures
        next_token(src, at).token.kind == TokenType::Number ==> is_number_literal(
            next_token(src, at).token.text,
        ),
{
    lemma_skip_blank_bounds(src, at);
    let p = skip_blank(src, at).pos;
    if p < src.len() {
        lemma_keyword_is_word(src.subrange(p, run_end(src, p, Span::Word)));
        if next_token(src, at).token.kind == TokenType::Number {
            let whole = run_end(src, p, Span::Digits);
            let end = number_end(src, p);
            let text = src.subrange(p, end);
            lemma_run_end_bounds(src, p, Span::Digits);
            assert(whole > p);
            if end != whole {
                lemma_run_end_bounds(src, whole + 1, Span::Digits);
                lemma_run_end_in_slice(src, p, end, whole + 1, Span::Digits);
            }
            lemma_run_end_in_slice(src, p, end, p, Span::Digits);
            assert(run_end(text, 0, Span::Digits) == whole - p);
        }
    }
}

} // verus!
