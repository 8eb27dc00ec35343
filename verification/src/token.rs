//! Tokens and their kinds.

use vstd::prelude::*;
use crate::text::{ascii, ascii_bytes, spells};

verus! {

/// The closed set of token kinds.
#[derive(Copy, Clone, Debug, PartialEq, Eq, Structural)]
pub enum TokenType {
    // Single characters
    LeftParen,
    RightParen,
    LeftBrace,
    RightBrace,
    Comma,
    Dot,
    Minus,
    Plus,
    Semicolon,
    Slash,
    Asterisk,
    // Boolean operators
    Not,
    NotEqual,
    Equal,
    EqualEqual,
    Greater,
    GreaterEqual,
    Less,
    LessEqual,
    // Literals
    Identifier,
    String,
    Number,
    // Keywords
    And,
    Class,
    If,
    Else,
    True,
    False,
    For,
    Fn,
    Null,
    Or,
    Print,
    Return,
    Super,
    This,
    Let,
    While,
    // Auxiliary
    Eof,
    Error,
}

/// A token: its kind, the line it ends on, its lexeme and where the lexeme
/// starts in the source. The lexeme of an `Error` token is the reason.
#[derive(Copy, Clone, Debug)]
pub struct Token<'src> {
    pub kind: TokenType,
    pub line: u32,
    pub literal: &'src [u8],
    pub start: usize,
}

/// The kind of the word `lexeme`: its keyword, or `Identifier`.
pub open spec fn keyword(lexeme: Seq<u8>) -> TokenType {
    if lexeme == ascii("and"@) {
        TokenType::And
    } else if lexeme == ascii("class"@) {
        TokenType::Class
    } else if lexeme == ascii("else"@) {
        TokenType::Else
    } else if lexeme == ascii("false"@) {
        TokenType::False
    } else if lexeme == ascii("for"@) {
        TokenType::For
    } else if lexeme == ascii("fn"@) {
        TokenType::Fn
    } else if lexeme == ascii("if"@) {
        TokenType::If
    } else if lexeme == ascii("let"@) {
        TokenType::Let
    } else if lexeme == ascii("null"@) {
        TokenType::Null
    } else if lexeme == ascii("or"@) {
        TokenType::Or
    } else if lexeme == ascii("print"@) {
        TokenType::Print
    } else if lexeme == ascii("return"@) {
        TokenType::Return
    } else if lexeme == ascii("super"@) {
        TokenType::Super
    } else if lexeme == ascii("this"@) {
        TokenType::This
    } else if lexeme == ascii("true"@) {
        TokenType::True
    } else if lexeme == ascii("while"@) {
        TokenType::While
    } else {
        TokenType::Identifier
    }
}

impl TokenType {
    /// Classifies a word as one of the sixteen keywords or as an identifier.
    pub fn from_literal(literal: &[u8]) -> (kind: Self)
        ensures
            kind == keyword(literal@),
    {
        proof {
            reveal_strlit("and");
            reveal_strlit("class");
            reveal_strlit("else");
            reveal_strlit("false");
            reveal_strlit("for");
            reveal_strlit("fn");
            reveal_strlit("if");
            reveal_strlit("let");
            reveal_strlit("null");
            reveal_strlit("or");
            reveal_strlit("print");
            reveal_strlit("return");
            reveal_strlit("super");
            reveal_strlit("this");
            reveal_strlit("true");
            reveal_strlit("while");
        }
        if spells(literal, "and") {
            TokenType::And
        } else if spells(literal, "class") {
            TokenType::Class
        } else if spells(literal, "else") {
            TokenType::Else
        } else if spells(literal, "false") {
            TokenType::False
        } else if spells(literal, "for") {
            TokenType::For
        } else if spells(literal, "fn") {
            TokenType::Fn
        } else if spells(literal, "if") {
            TokenType::If
        } else if spells(literal, "let") {
            TokenType::Let
        } else if spells(literal, "null") {
            TokenType::Null
        } else if spells(literal, "or") {
            TokenType::Or
        } else if spells(literal, "print") {
            TokenType::Print
        } else if spells(literal, "return") {
            TokenType::Return
        } else if spells(literal, "super") {
            TokenType::Super
        } else if spells(literal, "this") {
            TokenType::This
        } else if spells(literal, "true") {
            TokenType::True
        } else if spells(literal, "while") {
            TokenType::While
        } else {
            TokenType::Identifier
        }
    }
}

/// The model of a token: the lexeme as a sequence, the start as an `int`.
pub struct Lexeme {
    pub kind: TokenType,
    pub line: u32,
    pub text: Seq<u8>,
    pub start: int,
}

impl<'src> View for Token<'src> {
    type V = Lexeme;

    open spec fn view(&self) -> Lexeme {
        Lexeme { kind: self.kind, line: self.line, text: self.literal@, start: self.start as int }
    }
}

impl Default for TokenType {
    /// The default kind is `Error`.
    fn default() -> (kind: Self)
        ensures
            kind == TokenType::Error,
    {
        TokenType::Error
    }
}

impl<'src> Default for Token<'src> {
    /// The sentinel a parser starts from: an `Error` token on line 0 with an
    /// empty lexeme.
    fn default() -> (token: Self)
        ensures
            token@ == (Lexeme { kind: TokenType::Error, line: 0, text: Seq::empty(), start: 0 }),
    {
        proof {
            reveal_strlit("");
        }
        let token = Token { kind: TokenType::Error, line: 0, literal: ascii_bytes(""), start: 0 };
        assert(token.literal@ =~= Seq::<u8>::empty());
        token
    }
}

} // verus!
