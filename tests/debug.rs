use rlox::chunk::{Chunk, OpCode};
use rlox::debug::{disassemble, disassemble_instruction, Decoded, Disassembled};

#[test]
fn listing_lines_render_offsets_lines_and_operands() {
    let mut c: Chunk<f64> = Chunk::new();
    let i = c.add_constant(1.2).unwrap();
    c.write(OpCode::Constant.to_byte(), 123);
    c.write(i, 123);
    c.write(OpCode::Negate.to_byte(), 123);
    c.write(OpCode::Return.to_byte(), 124);
    let listing = disassemble(&c);
    let lines: Vec<String> = listing.iter().map(|d| d.text("1.2")).collect();
    assert_eq!(
        lines,
        vec!["0000 0123 OpConstant  0 '1.2'", "0002    | OpNegate", "0003 0124 OpReturn"]
    );
}

#[test]
fn disassemble_instruction_returns_the_next_offset() {
    let mut c: Chunk<f64> = Chunk::new();
    c.add_constant(0.5).unwrap();
    for b in [0u8, 0, 4, 9, 0] {
        c.write(b, 1);
    }
    let (d, next) = disassemble_instruction(&c, 0);
    assert_eq!((d.decoded, d.line, next), (Decoded::Constant(0), Some(1), 2));
    let (d, next) = disassemble_instruction(&c, 2);
    assert_eq!((d.decoded, d.line, next), (Decoded::Simple(OpCode::Subtract), None, 3));
    let (d, next) = disassemble_instruction(&c, 3);
    assert_eq!((d.decoded, next), (Decoded::Unknown(9), 4));
    assert_eq!(d.text(""), "0003    | unknown opcode");
    let (d, next) = disassemble_instruction(&c, 4);
    assert_eq!((d.decoded, next), (Decoded::MissingOperand, 5));
    assert_eq!(d.text(""), "0004    | OpConstant  missing operand");
}

#[test]
fn wide_numbers_are_not_cut() {
    let d = Disassembled { offset: 12345, line: Some(7), decoded: Decoded::Constant(255) };
    assert_eq!(d.text("-3"), "12345 0007 OpConstant  255 '-3'");
    let d = Disassembled { offset: 9, line: Some(10000), decoded: Decoded::Simple(OpCode::Divide) };
    assert_eq!(d.text(""), "0009 10000 OpDivide");
}
