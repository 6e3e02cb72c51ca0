use rlox::chunk::{Chunk, OpCode, MAX_CONSTANTS};

#[test]
fn write_keeps_one_line_per_byte() {
    let mut chunk: Chunk<f64> = Chunk::new();
    assert!(chunk.code.is_empty() && chunk.lines.is_empty() && chunk.constants.is_empty());
    chunk.write(OpCode::Constant.to_byte(), 7);
    chunk.write(0, 7);
    chunk.write(OpCode::Return.to_byte(), 8);
    assert_eq!(chunk.code, vec![0, 0, 1]);
    assert_eq!(chunk.lines, vec![7, 7, 8]);
}

#[test]
fn add_constant_returns_indices_until_the_pool_is_full() {
    let mut chunk: Chunk<f64> = Chunk::new();
    assert_eq!(chunk.add_constant(1.5), Some(0));
    assert_eq!(chunk.add_constant(2.5), Some(1));
    for i in 2..MAX_CONSTANTS {
        assert_eq!(chunk.add_constant(i as f64), Some(i as u8));
    }
    assert_eq!(chunk.add_constant(9.0), None);
    assert_eq!(chunk.constants.len(), 256);
    assert_eq!(chunk.constants[1], 2.5);
}

#[test]
fn opcode_bytes_are_dense_in_declaration_order() {
    let ops = [
        OpCode::Constant,
        OpCode::Return,
        OpCode::Negate,
        OpCode::Add,
        OpCode::Subtract,
        OpCode::Multiply,
        OpCode::Divide,
    ];
    for (i, op) in ops.iter().enumerate() {
        assert_eq!(op.to_byte(), i as u8);
        assert_eq!(OpCode::decode(i as u8), Some(*op));
    }
    assert_eq!(OpCode::decode(7), None);
    assert_eq!(OpCode::decode(255), None);
    assert_eq!(OpCode::Subtract.mnemonic(), "OpSubtract");
}
