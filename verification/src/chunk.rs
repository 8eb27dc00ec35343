//! Chunks: bytecode, the source line of each byte, and the constant pool.

use vstd::prelude::*;
use vstd::slice::slice_to_vec;

verus! {

/// The one-byte instruction codes.
pub struct OpCodes;

impl OpCodes {
    pub const OP_RETURN: u8 = 0;
    pub const OP_CONSTANT: u8 = 1;
    pub const OP_NEGATE: u8 = 2;
    pub const OP_ADD: u8 = 3;
    pub const OP_SUBSTRACT: u8 = 4;
    pub const OP_MULTIPLY: u8 = 5;
    pub const OP_DIVIDE: u8 = 6;
    pub const OP_NULL: u8 = 7;
    pub const OP_TRUE: u8 = 8;
    pub const OP_FALSE: u8 = 9;
    pub const OP_NOT: u8 = 10;
    pub const OP_EQUAL: u8 = 11;
    pub const OP_GREATER: u8 = 12;
    pub const OP_LESS: u8 = 13;
}

/// The most constants one chunk can hold: an index is one byte.
pub const MAX_CONSTANTS: usize = 256;

/// A literal of the source, as the constant pool keeps it.
#[derive(Debug)]
pub enum Constant {
    /// A number literal: its digits as written, with at most one dot among
    /// them. The machine asks for its value when it loads the constant.
    Number(Vec<u8>),
    /// A string literal: the bytes between the quotes.
    String(Vec<u8>),
}

/// The model of a constant.
pub enum Literal {
    Number(Seq<u8>),
    String(Seq<u8>),
}

impl View for Constant {
    type V = Literal;

    open spec fn view(&self) -> Literal {
        match self {
            Constant::Number(digits) => Literal::Number(digits@),
            Constant::String(bytes) => Literal::String(bytes@),
        }
    }
}

impl Clone for Constant {
    fn clone(&self) -> (copy: Self)
        ensures
            copy@ == self@,
    {
        match self {
            Constant::Number(digits) => Constant::Number(slice_to_vec(digits.as_slice())),
            Constant::String(bytes) => Constant::String(slice_to_vec(bytes.as_slice())),
        }
    }
}

/// A compiled block: the instruction bytes, one source line for each of
/// them, and the constants that the instructions refer to.
#[derive(Debug)]
pub struct Chunk {
    pub bytes: Vec<u8>,
    pub lines: Vec<u32>,
    pub values: Vec<Constant>,
}

/// The model of a chunk.
pub struct Code {
    pub bytes: Seq<u8>,
    pub lines: Seq<u32>,
    pub values: Seq<Literal>,
}

impl Code {
    /// Every byte has its line.
    pub open spec fn wf(self) -> bool {
        self.bytes.len() == self.lines.len()
    }

    /// The chunk with one more byte, written for the given line.
    pub open spec fn write(self, byte: u8, line: u32) -> Code {
        Code { bytes: self.bytes.push(byte), lines: self.lines.push(line), values: self.values }
    }

    /// The chunk with one more constant.
    pub open spec fn add(self, value: Literal) -> Code {
        Code { bytes: self.bytes, lines: self.lines, values: self.values.push(value) }
    }
}

impl View for Chunk {
    type V = Code;

    open spec fn view(&self) -> Code {
        Code {
            bytes: self.bytes@,
            lines: self.lines@,
            values: Seq::new(self.values@.len(), |i: int| self.values@[i]@),
        }
    }
}

impl Default for Chunk {
    fn default() -> (chunk: Self)
        ensures
            chunk@ == (Code { bytes: Seq::empty(), lines: Seq::empty(), values: Seq::empty() }),
    {
        Chunk::new()
    }
}

impl Chunk {
    /// An empty chunk.
    pub fn new() -> (chunk: Self)
        ensures
            chunk@ == (Code { bytes: Seq::empty(), lines: Seq::empty(), values: Seq::empty() }),
            chunk@.wf(),
    {
        let chunk = Chunk { bytes: Vec::new(), lines: Vec::new(), values: Vec::new() };
        assert(chunk@.values =~= Seq::empty());
        chunk
    }

    /// Appends one byte and the source line it comes from.
    pub fn write_byte(&mut self, byte: u8, line: u32)
        ensures
            final(self)@ == old(self)@.write(byte, line),
            old(self)@.wf() ==> final(self)@.wf(),
    {
        self.bytes.push(byte);
        self.lines.push(line);
        assert(self@.values =~= old(self)@.values);
    }

    /// Appends a constant and returns its index. The pool itself has no
    /// limit: whoever refers to the constant by one byte checks the index.
    pub fn add_constant(&mut self, value: Constant) -> (index: usize)
        ensures
            final(self)@ == old(self)@.add(value@),
            index == old(self)@.values.len(),
    {
        self.values.push(value);
        assert(self@.values =~= old(self)@.values.push(value@));
        self.values.len() - 1
    }

    /// The number of instruction bytes.
    pub fn len(&self) -> (len: usize)
        ensures
            len == self@.bytes.len(),
    {
        self.bytes.len()
    }

    /// The byte at `index`.
    pub fn index(&self, index: usize) -> (byte: u8)
        requires
            index < self@.bytes.len(),
        ensures
            byte == self@.bytes[index as int],
    {
        self.bytes[index]
    }
}

} // verus!
