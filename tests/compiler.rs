use lox_vm::chunk::{Chunk, OpCode};
use lox_vm::compiler::{ErrorLocation, Parser};
use lox_vm::values::Value;
use lox_vm::virtual_machine::InterpretError;

fn bits(xs: &[f64]) -> Vec<u64> {
    xs.iter().map(|x| x.to_bits()).collect()
}

fn code_of(chunk: &Chunk) -> Vec<u8> {
    (0..chunk.code_size()).map(|i| chunk.read_code(i).value()).collect()
}

fn op(o: OpCode) -> u8 {
    o.to_byte().value()
}

#[test]
fn emits_in_post_order() {
    let mut p = Parser::new();
    let mut c = Chunk::new();
    assert_eq!(p.compile("1 + 2 * 3", &bits(&[1.0, 2.0, 3.0]), &mut c), Ok(()));
    assert!(!p.had_error());
    let k = op(OpCode::OpConstant);
    assert_eq!(
        code_of(&c),
        vec![k, 0, k, 1, k, 2, op(OpCode::OpMultiply), op(OpCode::OpAdd), op(OpCode::OpReturn)]
    );
    assert_eq!(c.read_constant(2), Value::Number(3.0f64.to_bits()));
}

#[test]
fn operators_with_two_opcodes() {
    let mut p = Parser::new();
    let mut c = Chunk::new();
    assert_eq!(p.compile("true != nil <= false", &vec![], &mut c), Ok(()));
    assert_eq!(
        code_of(&c),
        vec![
            op(OpCode::OpTrue),
            op(OpCode::OpNil),
            op(OpCode::OpFalse),
            op(OpCode::OpGreater),
            op(OpCode::OpNot),
            op(OpCode::OpEqual),
            op(OpCode::OpNot),
            op(OpCode::OpReturn)
        ]
    );
}

#[test]
fn left_associative_code() {
    let mut p = Parser::new();
    let mut c = Chunk::new();
    assert_eq!(p.compile("8 - 4 - 2", &bits(&[8.0, 4.0, 2.0]), &mut c), Ok(()));
    let k = op(OpCode::OpConstant);
    let s = op(OpCode::OpSubtract);
    assert_eq!(code_of(&c), vec![k, 0, k, 1, s, k, 2, s, op(OpCode::OpReturn)]);
}

#[test]
fn missing_paren_is_reported_at_end() {
    let mut p = Parser::new();
    let mut c = Chunk::new();
    assert_eq!(
        p.compile("1 + (2 * 3", &bits(&[1.0, 2.0, 3.0]), &mut c),
        Err(InterpretError::CompileError)
    );
    let d = p.diagnostics();
    assert_eq!(d.len(), 1);
    assert_eq!(d[0].message, "Expect ')' after expression.");
    assert!(matches!(d[0].location, ErrorLocation::AtEnd));
    assert_eq!((d[0].line, d[0].column), (1, 11));
}

#[test]
fn string_has_no_prefix_rule() {
    let mut p = Parser::new();
    let mut c = Chunk::new();
    assert_eq!(p.compile("\"hello\"", &vec![], &mut c), Err(InterpretError::CompileError));
    let d = p.diagnostics();
    assert_eq!(d.len(), 1);
    assert_eq!(d[0].message, "Expect expression.");
    match &d[0].location {
        ErrorLocation::AtLexeme(s) => assert_eq!(s, "\"hello\""),
        _ => panic!("expected a lexeme"),
    }
    assert_eq!((d[0].line, d[0].column), (1, 1));
}

#[test]
fn trailing_token_is_reported() {
    let mut p = Parser::new();
    let mut c = Chunk::new();
    assert_eq!(p.compile("1 2", &bits(&[1.0, 2.0]), &mut c), Err(InterpretError::CompileError));
    let d = p.diagnostics();
    assert_eq!(d[0].message, "Expect end of expression");
    match &d[0].location {
        ErrorLocation::AtLexeme(s) => assert_eq!(s, "2"),
        _ => panic!("expected a lexeme"),
    }
}

#[test]
fn later_errors_are_suppressed() {
    let mut p = Parser::new();
    let mut c = Chunk::new();
    assert_eq!(p.compile("@ # )", &vec![], &mut c), Err(InterpretError::CompileError));
    let d = p.diagnostics();
    assert_eq!(d.len(), 1);
    assert_eq!(d[0].message, "Unexpected character.");
    assert!(matches!(d[0].location, ErrorLocation::Nowhere));
}

#[test]
fn error_flag_can_be_set() {
    let mut p = Parser::new();
    assert!(!p.had_error());
    p.set_error(true);
    assert!(p.had_error());
    let mut c = Chunk::new();
    assert_eq!(p.compile("nil", &vec![], &mut c), Err(InterpretError::CompileError));
}
