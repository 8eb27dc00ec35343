//! The precedence ladder and the rule table of the parser.

use vstd::prelude::*;
use crate::token::TokenType;

verus! {

/// Binding strength, from the weakest to the strongest.
pub type Precedence = u8;

/// The rungs of the precedence ladder.
pub struct Precs;

impl Precs {
    pub const NONE: Precedence = 0;
    /// `=`
    pub const ASSIGN: Precedence = 1;
    /// `or`
    pub const BOOL_OR: Precedence = 2;
    /// `and`
    pub const BOOL_AND: Precedence = 3;
    /// `==` `!=`
    pub const EQUALITY: Precedence = 4;
    /// `<` `<=` `>` `>=`
    pub const COMPARE: Precedence = 5;
    /// `+` `-`
    pub const TERM: Precedence = 6;
    /// `*` `/`
    pub const FACTOR: Precedence = 7;
    /// `-` `!` in front of an operand
    pub const UNARY: Precedence = 8;
    /// `()` `.`
    pub const CALL: Precedence = 9;
    /// Literals
    pub const PRIMARY: Precedence = 10;
}

/// The productions that a rule can name.
#[derive(Copy, Clone, Debug, PartialEq, Eq, Structural)]
pub enum ParseFn {
    Grouping,
    Unary,
    Binary,
    Number,
    String,
    Literal,
}

/// What the parser does with a token: the production it starts where it
/// opens an expression, the production it continues where it follows one,
/// and how tightly it binds as an operator.
#[derive(Copy, Clone, Debug, PartialEq, Eq, Structural)]
pub struct ParseRule {
    pub prefix: Option<ParseFn>,
    pub infix: Option<ParseFn>,
    pub precedence: Precedence,
}

/// The rung above `precedence`; the topmost rung is its own successor.
pub open spec fn next_precedence(precedence: Precedence) -> Precedence {
    if precedence < Precs::PRIMARY {
        (precedence + 1) as Precedence
    } else {
        Precs::PRIMARY
    }
}

/// The rule table.
pub open spec fn rule(kind: TokenType) -> ParseRule {
    match kind {
        TokenType::LeftParen => ParseRule {
            prefix: Some(ParseFn::Grouping),
            infix: None,
            precedence: Precs::NONE,
        },
        TokenType::Minus => ParseRule {
            prefix: Some(ParseFn::Unary),
            infix: Some(ParseFn::Binary),
            precedence: Precs::TERM,
        },
        TokenType::Plus => ParseRule {
            prefix: None,
            infix: Some(ParseFn::Binary),
            precedence: Precs::TERM,
        },
        TokenType::Slash | TokenType::Asterisk => ParseRule {
            prefix: None,
            infix: Some(ParseFn::Binary),
            precedence: Precs::FACTOR,
        },
        TokenType::Not => ParseRule {
            prefix: Some(ParseFn::Unary),
            infix: None,
            precedence: Precs::NONE,
        },
        TokenType::NotEqual | TokenType::EqualEqual => ParseRule {
            prefix: None,
            infix: Some(ParseFn::Binary),
            precedence: Precs::EQUALITY,
        },
        TokenType::Less | TokenType::LessEqual | TokenType::Greater | TokenType::GreaterEqual => ParseRule {
            prefix: None,
            infix: Some(ParseFn::Binary),
            precedence: Precs::COMPARE,
        },
        TokenType::Number => ParseRule {
            prefix: Some(ParseFn::Number),
            infix: None,
            precedence: Precs::NONE,
        },
        TokenType::String => ParseRule {
            prefix: Some(ParseFn::String),
            infix: None,
            precedence: Precs::NONE,
        },
        TokenType::Null | TokenType::True | TokenType::False => ParseRule {
            prefix: Some(ParseFn::Literal),
            infix: None,
            precedence: Precs::NONE,
        },
        _ => ParseRule { prefix: None, infix: None, precedence: Precs::NONE },
    }
}

/// The rung above `precedence`.
pub fn next(precedence: Precedence) -> (above: Precedence)
    ensures
        above == next_precedence(precedence),
{
    if precedence < Precs::PRIMARY {
        precedence + 1
    } else {
        Precs::PRIMARY
    }
}

/// Looks a token kind up in the rule table.
pub fn get_rule(kind: TokenType) -> (found: ParseRule)
    ensures
        found == rule(kind),
{
    match kind {
        TokenType::LeftParen => ParseRule {
            prefix: Some(ParseFn::Grouping),
            infix: None,
            precedence: Precs::NONE,
        },
        TokenType::Minus => ParseRule {
            prefix: Some(ParseFn::Unary),
            infix: Some(ParseFn::Binary),
            precedence: Precs::TERM,
        },
        TokenType::Plus => ParseRule {
            prefix: None,
            infix: Some(ParseFn::Binary),
            precedence: Precs::TERM,
        },
        TokenType::Slash => ParseRule {
            prefix: None,
            infix: Some(ParseFn::Binary),
            precedence: Precs::FACTOR,
        },
        TokenType::Asterisk => ParseRule {
            prefix: None,
            infix: Some(ParseFn::Binary),
            precedence: Precs::FACTOR,
        },
        TokenType::Not => ParseRule {
            prefix: Some(ParseFn::Unary),
            infix: None,
            precedence: Precs::NONE,
        },
        TokenType::NotEqual => ParseRule {
            prefix: None,
            infix: Some(ParseFn::Binary),
            precedence: Precs::EQUALITY,
        },
        TokenType::EqualEqual => ParseRule {
            prefix: None,
            infix: Some(ParseFn::Binary),
            precedence: Precs::EQUALITY,
        },
        TokenType::Less => ParseRule {
            prefix: None,
            infix: Some(ParseFn::Binary),
            precedence: Precs::COMPARE,
        },
        TokenType::LessEqual => ParseRule {
            prefix: None,
            infix: Some(ParseFn::Binary),
            precedence: Precs::COMPARE,
        },
        TokenType::Greater => ParseRule {
            prefix: None,
            infix: Some(ParseFn::Binary),
            precedence: Precs::COMPARE,
        },
        TokenType::GreaterEqual => ParseRule {
            prefix: None,
            infix: Some(ParseFn::Binary),
            precedence: Precs::COMPARE,
        },
        TokenType::Number => ParseRule {
            prefix: Some(ParseFn::Number),
            infix: None,
            precedence: Precs::NONE,
        },
        TokenType::String => ParseRule {
            prefix: Some(ParseFn::String),
            infix: None,
            precedence: Precs::NONE,
        },
        TokenType::Null => ParseRule {
            prefix: Some(ParseFn::Literal),
            infix: None,
            precedence: Precs::NONE,
        },
        TokenType::True => ParseRule {
            prefix: Some(ParseFn::Literal),
            infix: None,
            precedence: Precs::NONE,
        },
        TokenType::False => ParseRule {
            prefix: Some(ParseFn::Literal),
            infix: None,
            precedence: Precs::NONE,
        },
        _ => ParseRule { prefix: None, infix: None, precedence: Precs::NONE },
    }
}

/// A token that binds as an operator continues an expression as a binary
/// operator, and is neither `Eof` nor `Error`.
pub proof fn lemma_operators_are_binary(kind: TokenType)
    requires
        rule(kind).precedence >= Precs::ASSIGN,
    ensures
        rule(kind).infix == Some(ParseFn::Binary),
        Precs::EQUALITY <= rule(kind).precedence <= Precs::FACTOR,
        kind != TokenType::Eof,
        kind != TokenType::Error,
{
}

/// A token that opens an expression is neither `Eof` nor `Error`.
pub proof fn lemma_openers_are_tokens(kind: TokenType)
    requires
        rule(kind).prefix is Some,
    ensures
        kind != TokenType::Eof,
        kind != TokenType::Error,
{
}

} // verus!
