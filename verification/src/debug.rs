//! Disassembly: one line of text for each instruction of a chunk.

use vstd::prelude::*;
use crate::chunk::{Chunk, Code, Constant, Literal, OpCodes};
use crate::text::{append, append_padded_left, append_padded_right, append_text, ascii, decimal};
use crate::text::{digits, pad_left, pad_right};

verus! {

pub const ZERO: u8 = 0x30;

pub const BLANK: u8 = 0x20;

/// The name of a one-byte instruction; `None` for a load and for a byte
/// that is no instruction.
pub open spec fn op_name(op: u8) -> Option<Seq<char>> {
    if op == OpCodes::OP_RETURN {
        Some("OP_RETURN"@)
    } else if op == OpCodes::OP_NEGATE {
        Some("OP_NEGATE"@)
    } else if op == OpCodes::OP_ADD {
        Some("OP_ADD"@)
    } else if op == OpCodes::OP_SUBSTRACT {
        Some("OP_SUBSTRACT"@)
    } else if op == OpCodes::OP_MULTIPLY {
        Some("OP_MULTIPLY"@)
    } else if op == OpCodes::OP_DIVIDE {
        Some("OP_DIVIDE"@)
    } else if op == OpCodes::OP_NULL {
        Some("OP_NULL"@)
    } else if op == OpCodes::OP_TRUE {
        Some("OP_TRUE"@)
    } else if op == OpCodes::OP_FALSE {
        Some("OP_FALSE"@)
    } else if op == OpCodes::OP_NOT {
        Some("OP_NOT"@)
    } else if op == OpCodes::OP_EQUAL {
        Some("OP_EQUAL"@)
    } else if op == OpCodes::OP_GREATER {
        Some("OP_GREATER"@)
    } else if op == OpCodes::OP_LESS {
        Some("OP_LESS"@)
    } else {
        None
    }
}

/// What a constant shows as: the digits of a number as written, the bytes
/// of a string.
pub open spec fn shown(value: Literal) -> Seq<u8> {
    match value {
        Literal::Number(digits) => digits,
        Literal::String(bytes) => bytes,
    }
}

/// The start of a line of the listing: the offset in four digits, then the
/// source line in a field of four, or a bar where the byte before comes
/// from the same line.
pub open spec fn line_head(code: Code, offset: int) -> Seq<u8> {
    pad_left(digits(offset as nat), 4, ZERO) + ascii(" "@) + if offset > 0 && code.lines[offset]
        == code.lines[offset - 1] {
        ascii("   | "@)
    } else {
        pad_left(digits(code.lines[offset] as nat), 4, BLANK) + ascii(" "@)
    }
}

/// The rest of the line of a load: the name in a field of sixteen, the
/// index in a field of four, and the constant between quotes.
pub open spec fn load_tail(index: u8, value: Literal) -> Seq<u8> {
    pad_right(ascii("OP_CONSTANT"@), 16, BLANK) + ascii(" "@) + pad_left(
        digits(index as nat),
        4,
        BLANK,
    ) + ascii(" '"@) + shown(value) + ascii("'"@)
}

/// One line of the listing, and the offset of the instruction behind the
/// one it lists.
pub struct Line {
    pub text: Seq<u8>,
    pub next: int,
}

/// The line of the listing for the instruction at `offset`, without a line
/// end, and the offset of the next instruction. `None` where there is no
/// byte at `offset`, where the byte is no instruction, and where a load has
/// no operand or names no constant.
pub open spec fn listing(code: Code, offset: int) -> Option<Line> {
    if !(0 <= offset < code.bytes.len()) {
        None
    } else if code.bytes[offset] == OpCodes::OP_CONSTANT {
        if offset + 1 < code.bytes.len() && code.bytes[offset + 1] < code.values.len() {
            let index = code.bytes[offset + 1];
            Some(
                Line {
                    text: line_head(code, offset) + load_tail(index, code.values[index as int]),
                    next: offset + 2,
                },
            )
        } else {
            None
        }
    } else {
        match op_name(code.bytes[offset]) {
            Some(name) => Some(
                Line { text: line_head(code, offset) + ascii(name), next: offset + 1 },
            ),
            None => None,
        }
    }
}

/// The name of a one-byte instruction.
fn name_of(op: u8) -> (name: Option<&'static str>)
    ensures
        name is Some == op_name(op) is Some,
        name matches Some(text) ==> text@ == op_name(op)->0 && text.is_ascii(),
{
    proof {
        reveal_strlit("OP_RETURN");
        reveal_strlit("OP_NEGATE");
        reveal_strlit("OP_ADD");
        reveal_strlit("OP_SUBSTRACT");
        reveal_strlit("OP_MULTIPLY");
        reveal_strlit("OP_DIVIDE");
        reveal_strlit("OP_NULL");
        reveal_strlit("OP_TRUE");
        reveal_strlit("OP_FALSE");
        reveal_strlit("OP_NOT");
        reveal_strlit("OP_EQUAL");
        reveal_strlit("OP_GREATER");
        reveal_strlit("OP_LESS");
    }
    if op == OpCodes::OP_RETURN {
        Some("OP_RETURN")
    } else if op == OpCodes::OP_NEGATE {
        Some("OP_NEGATE")
    } else if op == OpCodes::OP_ADD {
        Some("OP_ADD")
    } else if op == OpCodes::OP_SUBSTRACT {
        Some("OP_SUBSTRACT")
    } else if op == OpCodes::OP_MULTIPLY {
        Some("OP_MULTIPLY")
    } else if op == OpCodes::OP_DIVIDE {
        Some("OP_DIVIDE")
    } else if op == OpCodes::OP_NULL {
        Some("OP_NULL")
    } else if op == OpCodes::OP_TRUE {
        Some("OP_TRUE")
    } else if op == OpCodes::OP_FALSE {
        Some("OP_FALSE")
    } else if op == OpCodes::OP_NOT {
        Some("OP_NOT")
    } else if op == OpCodes::OP_EQUAL {
        Some("OP_EQUAL")
    } else if op == OpCodes::OP_GREATER {
        Some("OP_GREATER")
    } else if op == OpCodes::OP_LESS {
        Some("OP_LESS")
    } else {
        None
    }
}

/// Lists the instruction at `offset`: its line, without a line end, and
/// the offset of the instruction behind it.
pub fn debug_instruction(chunk: &Chunk, offset: usize) -> (result: Option<(Vec<u8>, usize)>)
    requires
        chunk@.wf(),
    ensures
        result is Some == listing(chunk@, offset as int) is Some,
        result matches Some((text, next)) ==> text@ == listing(chunk@, offset as int)->0.text
            && next == listing(chunk@, offset as int)->0.next,
{
    if offset >= chunk.len() {
        return None;
    }
    proof {
        reveal_strlit(" ");
        reveal_strlit("   | ");
        reveal_strlit("OP_CONSTANT");
    }
    let mut f: Vec<u8> = Vec::new();
    let place = decimal(offset as u64);
    append_padded_left(&mut f, place.as_slice(), 4, ZERO);
    append_text(&mut f, " ");

    // The line number, or a bar where it is the line of the byte before.
    if offset > 0 && chunk.lines[offset] == chunk.lines[offset - 1] {
        append_text(&mut f, "   | ");
    } else {
        let line = decimal(chunk.lines[offset] as u64);
        append_padded_left(&mut f, line.as_slice(), 4, BLANK);
        append_text(&mut f, " ");
    }
    assert(f@ =~= line_head(chunk@, offset as int));

    let opcode = chunk.index(offset);
    if opcode == OpCodes::OP_CONSTANT {
        constant_op(f, "OP_CONSTANT", chunk, offset)
    } else {
        match name_of(opcode) {
            Some(name) => Some(simple_op(f, name, offset)),
            None => None,
        }
    }
}

/// Ends the line of an instruction without operand.
pub fn simple_op(f: Vec<u8>, name: &str, offset: usize) -> (line: (Vec<u8>, usize))
    requires
        name.is_ascii(),
        offset < usize::MAX,
    ensures
        line.0@ == f@ + ascii(name@),
        line.1 == offset + 1,
{
    let mut f = f;
    append_text(&mut f, name);
    (f, offset + 1)
}

/// Ends the line of a load: the index and the constant it names.
pub fn constant_op(f: Vec<u8>, name: &str, chunk: &Chunk, offset: usize) -> (result: Option<
    (Vec<u8>, usize),
>)
    requires
        name.is_ascii(),
        offset < chunk@.bytes.len(),
    ensures
        result is Some == (offset + 1 < chunk@.bytes.len() && chunk@.bytes[offset + 1]
            < chunk@.values.len()),
        result matches Some(line) ==> {
            let index = chunk@.bytes[offset + 1];
            &&& line.1 == offset + 2
            &&& line.0@ == f@ + (pad_right(ascii(name@), 16, BLANK) + ascii(" "@) + pad_left(
                digits(index as nat),
                4,
                BLANK,
            ) + ascii(" '"@) + shown(chunk@.values[index as int]) + ascii("'"@))
        },
{
    assert(chunk.bytes@.len() == chunk.bytes.len());
    if offset + 1 >= chunk.len() {
        return None;
    }
    let value_ix = chunk.index(offset + 1);
    if value_ix as usize >= chunk.values.len() {
        return None;
    }
    proof {
        reveal_strlit(" ");
        reveal_strlit(" '");
        reveal_strlit("'");
    }
    let ghost before = f@;
    let mut f = f;
    append_padded_right(&mut f, crate::text::ascii_bytes(name), 16, BLANK);
    append_text(&mut f, " ");
    let index = decimal(value_ix as u64);
    append_padded_left(&mut f, index.as_slice(), 4, BLANK);
    append_text(&mut f, " '");
    match &chunk.values[value_ix as usize] {
        Constant::Number(digits) => append(&mut f, digits.as_slice()),
        Constant::String(bytes) => append(&mut f, bytes.as_slice()),
    }
    append_text(&mut f, "'");
    assert(f@ =~= before + (pad_right(ascii(name@), 16, BLANK) + ascii(" "@) + pad_left(
        digits(value_ix as nat),
        4,
        BLANK,
    ) + ascii(" '"@) + shown(chunk@.values[value_ix as int]) + ascii("'"@)));
    Some((f, offset + 2))
}

} // verus!
