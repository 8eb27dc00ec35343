//! The shape of runnable bytecode: which byte sequences are expressions,
//! and which chunks run to their return without a malformed instruction.

use vstd::prelude::*;
use crate::chunk::{Code, Literal, OpCodes};
use crate::scanner::is_number_literal;

verus! {

/// Whether `op` puts a value on the stack and takes none.
pub open spec fn is_push(op: u8) -> bool {
    op == OpCodes::OP_NULL || op == OpCodes::OP_TRUE || op == OpCodes::OP_FALSE
}

/// Whether `op` replaces the top value.
pub open spec fn is_unary(op: u8) -> bool {
    op == OpCodes::OP_NEGATE || op == OpCodes::OP_NOT
}

/// Whether `op` takes two values from the stack and gives one.
pub open spec fn is_binary(op: u8) -> bool {
    OpCodes::OP_ADD <= op <= OpCodes::OP_DIVIDE || OpCodes::OP_EQUAL <= op <= OpCodes::OP_LESS
}

/// The depth of the stack behind the one-byte instruction `op`, met at
/// depth `depth`; `None` where the instruction lacks its values, returns,
/// or is a load without its operand.
pub open spec fn after_op(op: u8, depth: int) -> Option<int> {
    if op == OpCodes::OP_RETURN || op == OpCodes::OP_CONSTANT {
        None
    } else if is_push(op) {
        Some(depth + 1)
    } else if is_unary(op) {
        if depth >= 1 {
            Some(depth)
        } else {
            None
        }
    } else if is_binary(op) {
        if depth >= 2 {
            Some(depth - 1)
        } else {
            None
        }
    } else {
        Some(depth)
    }
}

impl Code {
    /// Whether a load at `at` has its operand before `end`, and the operand
    /// names a constant of the pool.
    pub open spec fn loads(self, at: int, end: int) -> bool {
        at + 1 < end && at + 1 < self.bytes.len() && self.bytes[at + 1] < self.values.len()
    }

    /// The depth of the stack behind the instructions from `at` up to
    /// `end`, met at depth `depth`. `None` where the bytes are not whole
    /// instructions, where one of them returns, lacks its values or loads
    /// no constant of the pool.
    pub open spec fn reach(self, at: int, depth: int, end: int) -> Option<int>
        decreases end - at,
    {
        if at >= end {
            if at == end {
                Some(depth)
            } else {
                None
            }
        } else if !(0 <= at < self.bytes.len()) {
            None
        } else if self.bytes[at] == OpCodes::OP_CONSTANT {
            if self.loads(at, end) {
                self.reach(at + 2, depth + 1, end)
            } else {
                None
            }
        } else {
            match after_op(self.bytes[at], depth) {
                Some(next) => self.reach(at + 1, next, end),
                None => None,
            }
        }
    }

    /// Whether the instructions from `at` on, met at depth `depth`, lead to
    /// a return that finds exactly one value on the stack, each of them
    /// whole and with the values it takes.
    pub open spec fn runs(self, at: int, depth: int) -> bool
        decreases self.bytes.len() - at,
    {
        if !(0 <= at < self.bytes.len()) {
            false
        } else if self.bytes[at] == OpCodes::OP_RETURN {
            depth == 1
        } else if self.bytes[at] == OpCodes::OP_CONSTANT {
            self.loads(at, self.bytes.len() as int) && self.runs(at + 2, depth + 1)
        } else {
            match after_op(self.bytes[at], depth) {
                Some(next) => self.runs(at + 1, next),
                None => false,
            }
        }
    }

    /// Whether an instruction starts at `offset`, counted from the one at
    /// `at`, with no return before it.
    pub open spec fn starts(self, at: int, offset: int) -> bool
        decreases offset - at,
    {
        if at >= offset {
            at == offset
        } else if !(0 <= at < self.bytes.len()) || self.bytes[at] == OpCodes::OP_RETURN {
            false
        } else if self.bytes[at] == OpCodes::OP_CONSTANT {
            at + 1 < offset && self.starts(at + 2, offset)
        } else {
            self.starts(at + 1, offset)
        }
    }

    /// Whether every number of the pool is a number literal.
    pub open spec fn numbers_are_literals(self) -> bool {
        forall|i: int|
            0 <= i < self.values.len() ==> ((#[trigger] self.values[i]) matches Literal::Number(
                digits,
            ) ==> is_number_literal(digits))
    }

    /// Whether `self` holds all of `shorter` and possibly more behind it.
    pub open spec fn extends(self, shorter: Code) -> bool {
        &&& shorter.bytes.len() <= self.bytes.len()
        &&& shorter.values.len() <= self.values.len()
        &&& forall|i: int| 0 <= i < shorter.bytes.len() ==> self.bytes[i] == shorter.bytes[i]
    }
}

/// What was an expression stays one, of the same depth, when bytes and
/// constants are added behind it.
pub proof fn lemma_reach_extends(longer: Code, shorter: Code, at: int, depth: int, end: int)
    requires
        longer.extends(shorter),
        0 <= at,
        end <= shorter.bytes.len(),
        shorter.reach(at, depth, end) is Some,
    ensures
        longer.reach(at, depth, end) == shorter.reach(at, depth, end),
    decreases end - at,
{
    if at < end {
        if shorter.bytes[at] == OpCodes::OP_CONSTANT {
            lemma_reach_extends(longer, shorter, at + 2, depth + 1, end);
        } else {
            lemma_reach_extends(
                longer,
                shorter,
                at + 1,
                after_op(shorter.bytes[at], depth)->0,
                end,
            );
        }
    }
}

/// An expression followed by more instructions: the depth behind all of
/// them is the depth behind the rest, met at the depth behind the first.
pub proof fn lemma_reach_splits(code: Code, at: int, depth: int, mid: int, end: int)
    requires
        0 <= at,
        mid <= end,
        code.reach(at, depth, mid) is Some,
    ensures
        code.reach(at, depth, end) == code.reach(mid, code.reach(at, depth, mid)->0, end),
    decreases mid - at,
{
    if at < mid {
        if code.bytes[at] == OpCodes::OP_CONSTANT {
            lemma_reach_splits(code, at + 2, depth + 1, mid, end);
        } else {
            lemma_reach_splits(code, at + 1, after_op(code.bytes[at], depth)->0, mid, end);
        }
    }
}

/// An expression never takes more than it finds: the depth behind it is
/// not negative where the depth before it was not.
pub proof fn lemma_reach_is_natural(code: Code, at: int, depth: int, end: int)
    requires
        0 <= depth,
        code.reach(at, depth, end) is Some,
    ensures
        0 <= code.reach(at, depth, end)->0,
    decreases end - at,
{
    if at < end {
        if code.bytes[at] == OpCodes::OP_CONSTANT {
            lemma_reach_is_natural(code, at + 2, depth + 1, end);
        } else {
            lemma_reach_is_natural(code, at + 1, after_op(code.bytes[at], depth)->0, end);
        }
    }
}

/// An expression that leaves one value, followed by a return at the end
/// of the chunk, runs.
pub proof fn lemma_expression_runs(code: Code, at: int, depth: int)
    requires
        0 <= at,
        code.bytes.len() >= 1,
        code.bytes[code.bytes.len() - 1] == OpCodes::OP_RETURN,
        code.reach(at, depth, code.bytes.len() - 1) == Some(1int),
    ensures
        code.runs(at, depth),
    decreases code.bytes.len() - at,
{
    let end = code.bytes.len() - 1;
    if at < end {
        if code.bytes[at] == OpCodes::OP_CONSTANT {
            lemma_expression_runs(code, at + 2, depth + 1);
        } else {
            lemma_expression_runs(code, at + 1, after_op(code.bytes[at], depth)->0);
        }
    }
}

/// In a chunk that runs, every load names a constant of the pool: where an
/// instruction starts at `offset` and is `OP_CONSTANT`, the byte behind it
/// is an index into the pool.
pub proof fn lemma_loads_name_constants(code: Code, at: int, depth: int, offset: int)
    requires
        code.runs(at, depth),
        code.starts(at, offset),
        0 <= offset < code.bytes.len(),
        code.bytes[offset] == OpCodes::OP_CONSTANT,
    ensures
        offset + 1 < code.bytes.len(),
        code.bytes[offset + 1] < code.values.len(),
    decreases offset - at,
{
    if at < offset {
        if code.bytes[at] == OpCodes::OP_CONSTANT {
            lemma_loads_name_constants(code, at + 2, depth + 1, offset);
        } else {
            lemma_loads_name_constants(code, at + 1, after_op(code.bytes[at], depth)->0, offset);
        }
    }
}

} // verus!
