//! The text of compile errors and of runtime errors.

use vstd::prelude::*;
use crate::parser::{Diagnostic, Report};
use crate::text::{append, append_text, ascii, decimal, digits};
use crate::token::TokenType;
use crate::vm::{fault_text, Fault};

verus! {

/// Where a compile error points: at the end of the source, at a lexeme, or
/// nowhere, for an `Error` token, whose lexeme is the message itself.
pub open spec fn error_place(report: Report) -> Seq<u8> {
    match report.token.kind {
        TokenType::Eof => ascii(" at end"@),
        TokenType::Error => Seq::empty(),
        _ => ascii(" at '"@) + report.token.text + ascii("'"@),
    }
}

/// The line a compile error prints as, without a line end.
pub open spec fn compile_error_text(report: Report) -> Seq<u8> {
    ascii("[Line "@) + digits(report.token.line as nat) + ascii("] Error"@) + error_place(report)
        + ascii(": "@) + report.message
}

/// The two lines a runtime error prints as, without the last line end: the
/// message, then the line of the source.
pub open spec fn runtime_error_text(fault: Fault, line: u32) -> Seq<u8> {
    fault_text(fault) + ascii("\n[line "@) + digits(line as nat) + ascii("] in script."@)
}

impl<'src> Diagnostic<'src> {
    /// The text of the compile error: `[Line L] Error at 'lexeme': message`,
    /// with `at end` for the end of the source and no place for a token
    /// that is itself an error.
    pub fn render(&self) -> (text: Vec<u8>)
        ensures
            text@ == compile_error_text(self@),
    {
        proof {
            reveal_strlit("[Line ");
            reveal_strlit("] Error");
            reveal_strlit(" at end");
            reveal_strlit(" at '");
            reveal_strlit("'");
            reveal_strlit(": ");
        }
        let mut text: Vec<u8> = Vec::new();
        append_text(&mut text, "[Line ");
        let line = decimal(self.token.line as u64);
        append(&mut text, line.as_slice());
        append_text(&mut text, "] Error");
        match self.token.kind {
            TokenType::Eof => {
                append_text(&mut text, " at end");
            },
            TokenType::Error => {},
            _ => {
                append_text(&mut text, " at '");
                append(&mut text, self.token.literal);
                append_text(&mut text, "'");
            },
        }
        append_text(&mut text, ": ");
        append(&mut text, self.message);
        assert(text@ =~= compile_error_text(self@));
        text
    }
}

/// The text of a runtime error: the message, a line end, and
/// `[line L] in script.`
pub fn runtime_error(fault: Fault, line: u32) -> (text: Vec<u8>)
    ensures
        text@ == runtime_error_text(fault, line),
{
    proof {
        reveal_strlit("\n[line ");
        reveal_strlit("] in script.");
    }
    let mut text: Vec<u8> = Vec::new();
    append(&mut text, fault.message());
    append_text(&mut text, "\n[line ");
    let number = decimal(line as u64);
    append(&mut text, number.as_slice());
    append_text(&mut text, "] in script.");
    assert(text@ =~= runtime_error_text(fault, line));
    text
}

} // verus!
