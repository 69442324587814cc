use lox_vm::chunk::{Byte, Chunk, OpCode};
use lox_vm::values::Value;

#[test]
fn each_byte_keeps_its_line() {
    let mut c = Chunk::new();
    let lines = [1usize, 1, 2, 2, 3, 1, 1, 7];
    for (i, l) in lines.iter().enumerate() {
        c.write_code(Byte::new(i as u8), *l);
    }
    assert_eq!(c.code_size(), lines.len());
    for (i, l) in lines.iter().enumerate() {
        assert_eq!(c.read_line(i), *l);
        assert_eq!(c.read_code(i), Byte::new(i as u8));
    }
    assert_eq!(c.read_line(lines.len()), 0);
}

#[test]
fn constants_round_trip() {
    let mut c = Chunk::new();
    c.write_const(Value::create_nil(), 4);
    c.write_const(Value::create_boolean(true), 4);
    c.write_const(Value::create_number(2.5f64.to_bits()), 5);
    assert_eq!(c.read_constant(0), Value::Nil);
    assert_eq!(c.read_constant(1), Value::Boolean(true));
    assert_eq!(c.read_constant(2), Value::Number(2.5f64.to_bits()));
    assert_eq!(c.constants_len(), 3);
    assert_eq!(c.code_size(), 6);
    assert_eq!(c.read_code(0), OpCode::OpConstant.to_byte());
    assert_eq!(c.read_code(5).value(), 2);
    assert_eq!(c.read_line(5), 5);
    assert_eq!(c.read_line(1), 4);
}

#[test]
fn long_constant_index_is_big_endian() {
    let mut c = Chunk::new();
    for i in 0..300u64 {
        c.write_const(Value::Number(i), 1);
    }
    // 256 short forms of two bytes, then long forms of four.
    let at = 256 * 2;
    assert_eq!(c.read_code(at), OpCode::OpConstantLong.to_byte());
    assert_eq!(
        (c.read_code(at + 1).value(), c.read_code(at + 2).value(), c.read_code(at + 3).value()),
        (0, 1, 0)
    );
    let last = at + 43 * 4;
    assert_eq!(
        (c.read_code(last + 1).value(), c.read_code(last + 2).value(), c.read_code(last + 3).value()),
        (0, 1, 43)
    );
    assert_eq!(c.read_constant(299), Value::Number(299));
    assert_eq!(c.code_size(), 256 * 2 + 44 * 4);
}

#[test]
fn opcodes_decode_back() {
    let ops = [
        OpCode::OpConstant, OpCode::OpConstantLong, OpCode::OpNil, OpCode::OpTrue,
        OpCode::OpFalse, OpCode::OpNegate, OpCode::OpAdd, OpCode::OpSubtract,
        OpCode::OpMultiply, OpCode::OpDivide, OpCode::OpNot, OpCode::OpReturn, OpCode::OpEqual,
        OpCode::OpGreater, OpCode::OpLess,
    ];
    for op in ops {
        assert_eq!(OpCode::from_byte(op.to_byte()), Some(op));
    }
    assert_eq!(OpCode::from_byte(Byte::new(200)), None);
}
