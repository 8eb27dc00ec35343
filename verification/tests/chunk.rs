use rlox::debug::{constant_op, simple_op};
use rlox::text::{decimal, same_bytes, spells};
use rlox::{debug_instruction, Chunk, Compiler, Constant, OpCodes};

#[test]
fn new_chunk_is_empty() {
    let chunk = Chunk::new();
    assert_eq!(chunk.len(), 0);
    assert!(chunk.bytes.is_empty());
    assert!(chunk.lines.is_empty());
    assert!(chunk.values.is_empty());
    assert_eq!(Chunk::default().len(), 0);
}

#[test]
fn write_byte_keeps_bytes_and_lines_in_step() {
    let mut chunk = Chunk::new();
    chunk.write_byte(OpCodes::OP_TRUE, 1);
    chunk.write_byte(OpCodes::OP_NOT, 2);
    chunk.write_byte(OpCodes::OP_RETURN, 2);
    assert_eq!(chunk.len(), 3);
    assert_eq!(chunk.bytes, vec![8, 10, 0]);
    assert_eq!(chunk.lines, vec![1, 2, 2]);
    assert_eq!(chunk.bytes.len(), chunk.lines.len());
    assert_eq!(chunk.index(1), OpCodes::OP_NOT);
}

#[test]
fn add_constant_returns_the_index() {
    let mut chunk = Chunk::new();
    assert_eq!(chunk.add_constant(Constant::Number(b"1".to_vec())), 0);
    assert_eq!(chunk.add_constant(Constant::String(b"two".to_vec())), 1);
    assert_eq!(chunk.add_constant(Constant::Number(b"3".to_vec())), 2);
    assert_eq!(chunk.values.len(), 3);
    assert_eq!(chunk.len(), 0);
    assert!(matches!(chunk.values[1].clone(), Constant::String(bytes) if bytes == b"two".to_vec()));
}

#[test]
fn opcode_numbers() {
    assert_eq!(OpCodes::OP_RETURN, 0);
    assert_eq!(OpCodes::OP_CONSTANT, 1);
    assert_eq!(OpCodes::OP_NEGATE, 2);
    assert_eq!(OpCodes::OP_ADD, 3);
    assert_eq!(OpCodes::OP_SUBSTRACT, 4);
    assert_eq!(OpCodes::OP_MULTIPLY, 5);
    assert_eq!(OpCodes::OP_DIVIDE, 6);
    assert_eq!(OpCodes::OP_NULL, 7);
    assert_eq!(OpCodes::OP_TRUE, 8);
    assert_eq!(OpCodes::OP_FALSE, 9);
    assert_eq!(OpCodes::OP_NOT, 10);
    assert_eq!(OpCodes::OP_EQUAL, 11);
    assert_eq!(OpCodes::OP_GREATER, 12);
    assert_eq!(OpCodes::OP_LESS, 13);
}

fn listing(chunk: &Chunk) -> Vec<String> {
    let mut lines = Vec::new();
    let mut offset = 0;
    while offset < chunk.len() {
        let (line, next) = debug_instruction(chunk, offset).unwrap();
        lines.push(String::from_utf8(line).unwrap());
        offset = next;
    }
    lines
}

#[test]
fn disassembly_of_a_compiled_chunk() {
    let (chunk, diagnostic) = Compiler::new().compile("-(1.5 +\n\"two\")\n== !null");
    assert!(diagnostic.is_none());
    assert_eq!(
        listing(&chunk),
        vec![
            "0000    1 OP_CONSTANT         0 '1.5'",
            "0002    2 OP_CONSTANT         1 'two'",
            "0004    | OP_ADD",
            "0005    | OP_NEGATE",
            "0006    3 OP_NULL",
            "0007    | OP_NOT",
            "0008    | OP_EQUAL",
            "0009    | OP_RETURN",
        ]
    );
}

#[test]
fn disassembly_names_every_instruction() {
    let names = [
        (OpCodes::OP_RETURN, "OP_RETURN"),
        (OpCodes::OP_NEGATE, "OP_NEGATE"),
        (OpCodes::OP_ADD, "OP_ADD"),
        (OpCodes::OP_SUBSTRACT, "OP_SUBSTRACT"),
        (OpCodes::OP_MULTIPLY, "OP_MULTIPLY"),
        (OpCodes::OP_DIVIDE, "OP_DIVIDE"),
        (OpCodes::OP_NULL, "OP_NULL"),
        (OpCodes::OP_TRUE, "OP_TRUE"),
        (OpCodes::OP_FALSE, "OP_FALSE"),
        (OpCodes::OP_NOT, "OP_NOT"),
        (OpCodes::OP_EQUAL, "OP_EQUAL"),
        (OpCodes::OP_GREATER, "OP_GREATER"),
        (OpCodes::OP_LESS, "OP_LESS"),
    ];
    for (op, name) in names {
        let mut chunk = Chunk::new();
        chunk.write_byte(op, 123);
        let (line, next) = debug_instruction(&chunk, 0).unwrap();
        assert_eq!(String::from_utf8(line).unwrap(), format!("0000  123 {name}"));
        assert_eq!(next, 1);
    }
}

#[test]
fn disassembly_of_wide_numbers() {
    let mut chunk = Chunk::new();
    for _ in 0..12345 {
        chunk.write_byte(OpCodes::OP_NULL, 1);
    }
    chunk.write_byte(OpCodes::OP_TRUE, 123456);
    let (line, next) = debug_instruction(&chunk, 12345).unwrap();
    assert_eq!(String::from_utf8(line).unwrap(), "12345 123456 OP_TRUE");
    assert_eq!(next, 12346);
    let (line, _) = debug_instruction(&chunk, 42).unwrap();
    assert_eq!(String::from_utf8(line).unwrap(), "0042    | OP_NULL");
}

#[test]
fn disassembly_refuses_what_is_no_instruction() {
    let mut chunk = Chunk::new();
    chunk.write_byte(99, 1);
    chunk.write_byte(OpCodes::OP_CONSTANT, 1);
    chunk.write_byte(0, 1);
    chunk.write_byte(OpCodes::OP_CONSTANT, 1);
    assert!(debug_instruction(&chunk, 0).is_none());
    assert!(debug_instruction(&chunk, 1).is_none());
    assert!(debug_instruction(&chunk, 3).is_none());
    assert!(debug_instruction(&chunk, 4).is_none());
    chunk.add_constant(Constant::Number(b"1".to_vec()));
    assert!(debug_instruction(&chunk, 1).is_some());
}

#[test]
fn line_endings() {
    let (line, next) = simple_op(b"0000    1 ".to_vec(), "OP_ADD", 4);
    assert_eq!(line, b"0000    1 OP_ADD".to_vec());
    assert_eq!(next, 5);

    let mut chunk = Chunk::new();
    chunk.write_byte(OpCodes::OP_CONSTANT, 1);
    chunk.write_byte(0, 1);
    chunk.add_constant(Constant::String(b"x".to_vec()));
    let (line, next) = constant_op(Vec::new(), "OP_CONSTANT", &chunk, 0).unwrap();
    assert_eq!(line, b"OP_CONSTANT         0 'x'".to_vec());
    assert_eq!(next, 2);
}

#[test]
fn decimal_digits() {
    assert_eq!(decimal(0), b"0".to_vec());
    assert_eq!(decimal(9), b"9".to_vec());
    assert_eq!(decimal(10), b"10".to_vec());
    assert_eq!(decimal(4096), b"4096".to_vec());
    assert_eq!(decimal(u64::MAX), b"18446744073709551615".to_vec());
}

#[test]
fn byte_strings() {
    assert!(same_bytes(b"abc", b"abc"));
    assert!(!same_bytes(b"abc", b"abd"));
    assert!(!same_bytes(b"abc", b"ab"));
    assert!(same_bytes(b"", b""));
    assert!(spells(b"while", "while"));
    assert!(!spells(b"whale", "while"));
}
