use lox_vm::scanner::number_literals;
use lox_vm::values::Value;
use lox_vm::virtual_machine::{ArithOp, FaultKind, InterpretError, Outcome, VM};

/// Runs `source` the way the command-line driver does: literals are read as
/// binary64 numbers, arithmetic is done in binary64. Gives the exit status,
/// what was printed and what was reported.
fn run(source: &str) -> (i32, String, String) {
    let numbers: Vec<u64> = number_literals(source)
        .iter()
        .map(|t| t.parse::<f64>().unwrap().to_bits())
        .collect();
    let mut vm = VM::new();
    let mut outcome = match vm.interpret(source, &numbers) {
        Ok(o) => o,
        Err(InterpretError::CompileError) => return (65, String::new(), String::new()),
        Err(InterpretError::RuntimeError) => return (70, String::new(), String::new()),
    };
    loop {
        match outcome {
            Outcome::Finished(v) => return (0, format!("{}\n", show(v)), String::new()),
            Outcome::NeedsArithmetic(op, a, b) => {
                let (x, y) = (f64::from_bits(a), f64::from_bits(b));
                let r = match op {
                    ArithOp::Add => x + y,
                    ArithOp::Subtract => x - y,
                    ArithOp::Multiply => x * y,
                    ArithOp::Divide => x / y,
                };
                outcome = vm.resume(r.to_bits());
            }
            Outcome::Failed(kind, line) => {
                let msg = kind.message().unwrap_or("");
                return (70, String::new(), format!("{}\n[line {}] in script\n\n", msg, line));
            }
        }
    }
}

fn show(v: Value) -> String {
    match v {
        Value::Number(b) => format!("{}", f64::from_bits(b)),
        Value::Boolean(b) => format!("{}", b),
        Value::Nil => "nil".to_string(),
    }
}

#[test]
fn adds_two_numbers() {
    assert_eq!(run("1 + 2"), (0, "3\n".to_string(), String::new()));
}

#[test]
fn nested_logic_prints_true() {
    assert_eq!(run("!(5 - 4 > 3 * 2 == !nil)"), (0, "true\n".to_string(), String::new()));
}

#[test]
fn negating_a_boolean_is_a_runtime_error() {
    let (code, out, err) = run("-true");
    assert_eq!(code, 70);
    assert_eq!(out, "");
    assert!(err.contains("Operand must be a number."));
    assert_eq!(err, "Operand must be a number.\n[line 1] in script\n\n");
}

#[test]
fn unclosed_group_is_a_compile_error() {
    assert_eq!(run("1 + (2 * 3").0, 65);
}

#[test]
fn division_gives_a_fraction() {
    assert_eq!(run("10 / 4"), (0, "2.5\n".to_string(), String::new()));
}

#[test]
fn string_literal_is_a_compile_error() {
    assert_eq!(run("\"hello\"").0, 65);
}

#[test]
fn subtraction_is_left_associative() {
    assert_eq!(run("10 - 4 - 3").1, "3\n");
    assert_eq!(run("1 - 2 - 3").1, "-4\n");
    assert_eq!(run("100 / 10 / 5").1, "2\n");
}

#[test]
fn multiplication_binds_tighter_than_addition() {
    assert_eq!(run("1 + 2 * 3").1, "7\n");
    assert_eq!(run("(1+2)*3").1, "9\n");
}

#[test]
fn equality_across_variants_is_false() {
    assert_eq!(run("nil == false").1, "false\n");
    assert_eq!(run("1 == true").1, "false\n");
    assert_eq!(run("nil == nil").1, "true\n");
    assert_eq!(run("1 != 2").1, "true\n");
}

#[test]
fn comparisons_and_their_negations() {
    assert_eq!(run("1 < 2").1, "true\n");
    assert_eq!(run("2 <= 2").1, "true\n");
    assert_eq!(run("3 > 4").1, "false\n");
    assert_eq!(run("4 >= 5").1, "false\n");
    assert_eq!(run("-0 == 0").1, "true\n");
}

#[test]
fn comparing_non_numbers_is_a_runtime_error() {
    let (code, _, err) = run("1 < true");
    assert_eq!(code, 70);
    assert_eq!(err, "Operands must be numbers.\n[line 1] in script\n\n");
}

#[test]
fn adding_nil_reports_its_line() {
    let (code, _, err) = run("1 +\n\n nil");
    assert_eq!(code, 70);
    assert_eq!(err, "Operands must be numbers.\n[line 3] in script\n\n");
}

#[test]
fn division_by_zero_is_infinite() {
    assert_eq!(run("1 / 0").1, "inf\n");
    assert_eq!(run("0 / 0 == 0 / 0").1, "false\n");
}

#[test]
fn not_of_values() {
    assert_eq!(run("!nil").1, "true\n");
    assert_eq!(run("!0").1, "false\n");
    assert_eq!(run("!!true").1, "true\n");
}

#[test]
fn comments_and_whitespace_are_skipped() {
    assert_eq!(run("// first\n\t1 + // second\n 2").1, "3\n");
}

fn nested_sum(depth: usize) -> String {
    let mut s = String::new();
    for _ in 1..depth {
        s.push_str("1 + (");
    }
    s.push('1');
    for _ in 1..depth {
        s.push(')');
    }
    s
}

#[test]
fn stack_holds_two_hundred_fifty_five_values() {
    assert_eq!(run(&nested_sum(255)).1, "255\n");
}

#[test]
fn stack_overflows_at_two_hundred_fifty_six_values() {
    let source = nested_sum(256);
    let numbers: Vec<u64> = vec![1.0f64.to_bits(); 256];
    let mut vm = VM::new();
    assert_eq!(
        vm.interpret(&source, &numbers),
        Ok(Outcome::Failed(FaultKind::StackOverflow, 1))
    );
    assert!(!vm.is_running());
}

#[test]
fn arithmetic_waits_for_the_host() {
    let mut vm = VM::new();
    let numbers = vec![6.0f64.to_bits(), 4.0f64.to_bits()];
    let first = vm.interpret("6 - 4", &numbers);
    assert_eq!(
        first,
        Ok(Outcome::NeedsArithmetic(ArithOp::Subtract, 6.0f64.to_bits(), 4.0f64.to_bits()))
    );
    assert!(vm.is_running());
    let done = vm.resume(2.0f64.to_bits());
    assert_eq!(done, Outcome::Finished(Value::Number(2.0f64.to_bits())));
    assert!(!vm.is_running());
}

#[test]
fn left_operand_is_computed_first() {
    let mut vm = VM::new();
    let bits: Vec<u64> = [1.0f64, 2.0, 3.0].iter().map(|x| x.to_bits()).collect();
    let first = vm.interpret("1 - 2 - 3", &bits).unwrap();
    assert_eq!(first, Outcome::NeedsArithmetic(ArithOp::Subtract, bits[0], bits[1]));
    let second = vm.resume((-1.0f64).to_bits());
    assert_eq!(
        second,
        Outcome::NeedsArithmetic(ArithOp::Subtract, (-1.0f64).to_bits(), bits[2])
    );
}

#[test]
fn missing_literal_value_is_a_compile_error() {
    let mut vm = VM::new();
    assert_eq!(vm.interpret("1 + 2", &vec![1.0f64.to_bits()]), Err(InterpretError::CompileError));
}

#[test]
fn number_literals_in_order() {
    assert_eq!(number_literals("1 + 2.5 * (30)"), vec!["1", "2.5", "30"]);
    assert_eq!(number_literals("\"7\" + x1 // 9"), Vec::<String>::new());
    assert_eq!(number_literals("1.foo 3."), vec!["1", "3"]);
}
