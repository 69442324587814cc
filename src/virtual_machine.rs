use vstd::prelude::*;

use crate::chunk::{long_index, opcode_byte, runnable, instruction_len, Byte, Chunk, OpCode};
use crate::compiler::{
    compiled, lemma_group_compiles_first, lemma_product_compiles_first,
    lemma_subtraction_compiles_left_first, number_values, reads_as, Parser,
};
use crate::scanner::TokenType;
use crate::scanner::MAX_SOURCE_LEN;
use crate::values::{falsey, lt_bits, neg_bits, values_equal, Value};

verus! {

/// The two ways an interpretation can fail.
#[derive(Clone, Copy, Debug, PartialEq, Eq, Structural)]
pub enum InterpretError {
    CompileError,
    RuntimeError,
}

/// The most values the operand stack holds.
pub const MAX_STACK_SIZE: usize = 255;

/// An arithmetic operation on two numbers, performed by the host.
#[derive(Clone, Copy, Debug, PartialEq, Eq, Structural)]
pub enum ArithOp {
    Add,
    Subtract,
    Multiply,
    Divide,
}

/// Why execution stopped with a runtime error.
#[derive(Clone, Copy, Debug, PartialEq, Eq, Structural)]
pub enum FaultKind {
    /// `NEGATE` on a value that is not a number.
    OperandNotNumber,
    /// Arithmetic or ordering on values that are not both numbers.
    OperandsNotNumbers,
    /// A push onto a full stack.
    StackOverflow,
    /// A pop from an empty stack.
    StackUnderflow,
}

impl FaultKind {
    /// The message reported for a type error; stack faults have none.
    pub fn message(&self) -> (r: Option<&'static str>)
        ensures
            *self == FaultKind::OperandNotNumber ==> r is Some && r->0@
                == "Operand must be a number."@,
            *self == FaultKind::OperandsNotNumbers ==> r is Some && r->0@
                == "Operands must be numbers."@,
            *self == FaultKind::StackOverflow || *self == FaultKind::StackUnderflow ==> r is None,
    {
        match self {
            FaultKind::OperandNotNumber => Some("Operand must be a number."),
            FaultKind::OperandsNotNumbers => Some("Operands must be numbers."),
            _ => None,
        }
    }
}

/// Where execution stopped.
#[derive(Clone, Copy, Debug, PartialEq, Eq, Structural)]
pub enum Outcome {
    /// `RETURN` popped this value: the program's result.
    Finished(Value),
    /// The program needs `lhs op rhs` on two numbers (given as bit patterns);
    /// execution goes on once the result is handed to `resume`.
    NeedsArithmetic(ArithOp, u64, u64),
    /// A runtime error, with the source line of the failing instruction.
    Failed(FaultKind, usize),
}

/// The machine's state after one instruction, and where it stopped, if it did.
pub struct Step {
    pub ip: int,
    pub stack: Seq<Value>,
    pub outcome: Option<Outcome>,
}

/// The arithmetic operation that an opcode byte names, if any.
pub open spec fn arith_op(op: u8) -> Option<ArithOp> {
    if op == opcode_byte(OpCode::OpAdd) {
        Some(ArithOp::Add)
    } else if op == opcode_byte(OpCode::OpSubtract) {
        Some(ArithOp::Subtract)
    } else if op == opcode_byte(OpCode::OpMultiply) {
        Some(ArithOp::Multiply)
    } else if op == opcode_byte(OpCode::OpDivide) {
        Some(ArithOp::Divide)
    } else {
        None
    }
}

/// Pushing `v` and going on at `next`; on a full stack, an overflow.
pub open spec fn push_step(next: int, s: Seq<Value>, v: Value, line: usize) -> Step {
    if s.len() >= MAX_STACK_SIZE {
        Step { ip: next, stack: s, outcome: Some(Outcome::Failed(FaultKind::StackOverflow, line)) }
    } else {
        Step { ip: next, stack: s.push(v), outcome: None }
    }
}

/// Both values on top of the stack are numbers.
pub open spec fn top_two_numbers(s: Seq<Value>) -> bool {
    s.len() >= 2 && s[s.len() - 1] is Number && s[s.len() - 2] is Number
}

/// The bit patterns of the two numbers on top: (left operand, right operand).
pub open spec fn top_two_bits(s: Seq<Value>) -> (u64, u64) {
    (s[s.len() - 2]->Number_0, s[s.len() - 1]->Number_0)
}

/// What the instruction at `ip` does to the stack `s`.
pub open spec fn step(
    code: Seq<u8>,
    consts: Seq<Value>,
    lines: Seq<usize>,
    ip: int,
    s: Seq<Value>,
) -> Step {
    let op = code[ip];
    let line = lines[ip];
    let n = s.len();
    let next = ip + instruction_len(op);
    let type_error = |k: FaultKind|
        Step { ip: next, stack: Seq::empty(), outcome: Some(Outcome::Failed(k, line)) };
    let underflow = |t: Seq<Value>|
        Step { ip: next, stack: t, outcome: Some(Outcome::Failed(FaultKind::StackUnderflow, line)) };
    if op == opcode_byte(OpCode::OpConstant) {
        push_step(next, s, consts[code[ip + 1] as int], line)
    } else if op == opcode_byte(OpCode::OpConstantLong) {
        push_step(next, s, consts[long_index(code[ip + 1], code[ip + 2], code[ip + 3])], line)
    } else if op == opcode_byte(OpCode::OpNil) {
        push_step(next, s, Value::Nil, line)
    } else if op == opcode_byte(OpCode::OpTrue) {
        push_step(next, s, Value::Boolean(true), line)
    } else if op == opcode_byte(OpCode::OpFalse) {
        push_step(next, s, Value::Boolean(false), line)
    } else if op == opcode_byte(OpCode::OpNegate) {
        if n == 0 {
            underflow(s)
        } else if s.last() is Number {
            Step {
                ip: next,
                stack: s.drop_last().push(Value::Number(neg_bits(s.last()->Number_0))),
                outcome: None,
            }
        } else {
            type_error(FaultKind::OperandNotNumber)
        }
    } else if op == opcode_byte(OpCode::OpNot) {
        if n == 0 {
            underflow(s)
        } else {
            Step { ip: next, stack: s.drop_last().push(Value::Boolean(falsey(s.last()))), outcome: None }
        }
    } else if arith_op(op) is Some {
        if n < 2 {
            underflow(s)
        } else if !top_two_numbers(s) {
            type_error(FaultKind::OperandsNotNumbers)
        } else {
            Step {
                ip: next,
                stack: s.take(n - 2),
                outcome: Some(
                    Outcome::NeedsArithmetic(
                        arith_op(op)->0,
                        top_two_bits(s).0,
                        top_two_bits(s).1,
                    ),
                ),
            }
        }
    } else if op == opcode_byte(OpCode::OpEqual) {
        if n < 2 {
            underflow(Seq::empty())
        } else {
            Step {
                ip: next,
                stack: s.take(n - 2).push(Value::Boolean(values_equal(s[n - 2], s[n - 1]))),
                outcome: None,
            }
        }
    } else if op == opcode_byte(OpCode::OpGreater) || op == opcode_byte(OpCode::OpLess) {
        if n < 2 {
            underflow(s)
        } else if !top_two_numbers(s) {
            type_error(FaultKind::OperandsNotNumbers)
        } else {
            let (a, b) = top_two_bits(s);
            let r = if op == opcode_byte(OpCode::OpGreater) {
                lt_bits(b, a)
            } else {
                lt_bits(a, b)
            };
            Step { ip: next, stack: s.take(n - 2).push(Value::Boolean(r)), outcome: None }
        }
    } else if op == opcode_byte(OpCode::OpReturn) {
        if n == 0 {
            underflow(s)
        } else {
            Step { ip: next, stack: s.drop_last(), outcome: Some(Outcome::Finished(s.last())) }
        }
    } else {
        Step { ip: next, stack: s, outcome: None }
    }
}

/// Runs from `ip` until an instruction stops execution: the outcome, and the
/// instruction pointer and stack left behind.
pub open spec fn run_spec(
    code: Seq<u8>,
    consts: Seq<Value>,
    lines: Seq<usize>,
    ip: int,
    s: Seq<Value>,
) -> (Outcome, int, Seq<Value>)
    decreases code.len() - ip,
{
    if ip < 0 || ip >= code.len() {
        (Outcome::Failed(FaultKind::StackUnderflow, 0), ip, s)
    } else {
        let st = step(code, consts, lines, ip, s);
        if st.outcome is Some {
            (st.outcome->0, st.ip, st.stack)
        } else if st.ip <= ip || st.ip > code.len() {
            (Outcome::Failed(FaultKind::StackUnderflow, 0), ip, s)
        } else {
            run_spec(code, consts, lines, st.ip, st.stack)
        }
    }
}

/// No instruction takes the stack past its bound; an instruction that pushes
/// onto a full stack fails with an overflow instead.
pub proof fn lemma_step_keeps_stack_bound(
    code: Seq<u8>,
    consts: Seq<Value>,
    lines: Seq<usize>,
    ip: int,
    s: Seq<Value>,
)
    requires
        s.len() <= MAX_STACK_SIZE,
    ensures
        step(code, consts, lines, ip, s).stack.len() <= MAX_STACK_SIZE,
        s.len() == MAX_STACK_SIZE && (code[ip] == opcode_byte(OpCode::OpConstant) || code[ip]
            == opcode_byte(OpCode::OpConstantLong) || code[ip] == opcode_byte(OpCode::OpNil)
            || code[ip] == opcode_byte(OpCode::OpTrue) || code[ip] == opcode_byte(OpCode::OpFalse))
            ==> step(code, consts, lines, ip, s).outcome == Some(
            Outcome::Failed(FaultKind::StackOverflow, lines[ip]),
        ),
{
}

/// Subtraction is left-associative: `a - b - c` is `(a - b) - c`. Running
/// what a source of three number literals joined by two `-` compiles to, the
/// machine first asks for the first value minus the second; handed that
/// difference `d`, it asks for `d` minus the third value; handed that result
/// `e`, it returns `e`.
pub proof fn lemma_subtraction_is_left_associative(
    buf: Seq<char>,
    numbers: Seq<u64>,
    lines: Seq<usize>,
    d: u64,
    e: u64,
)
    requires
        reads_as(
            buf,
            0,
            seq![
                TokenType::Number,
                TokenType::Minus,
                TokenType::Number,
                TokenType::Minus,
                TokenType::Number,
                TokenType::EOF,
            ],
        ),
        numbers.len() >= 3,
    ensures
        compiled(buf, numbers, 0) is Some,
        ({
            let (code, used) = compiled(buf, numbers, 0)->0;
            let consts = number_values(numbers, 0, used);
            &&& run_spec(code, consts, lines, 0, Seq::empty()) == (
                Outcome::NeedsArithmetic(ArithOp::Subtract, numbers[0], numbers[1]),
                5int,
                Seq::<Value>::empty(),
            )
            &&& run_spec(code, consts, lines, 5, seq![Value::Number(d)]) == (
                Outcome::NeedsArithmetic(ArithOp::Subtract, d, numbers[2]),
                8int,
                Seq::<Value>::empty(),
            )
            &&& run_spec(code, consts, lines, 8, seq![Value::Number(e)]) == (
                Outcome::Finished(Value::Number(e)),
                9int,
                Seq::<Value>::empty(),
            )
        }),
{
    lemma_subtraction_compiles_left_first(buf, numbers);
    let (code, used) = compiled(buf, numbers, 0)->0;
    let consts = number_values(numbers, 0, used);
    let a = Value::Number(numbers[0]);
    let b = Value::Number(numbers[1]);
    let c = Value::Number(numbers[2]);
    assert(consts[0] == a && consts[1] == b && consts[2] == c);
    let empty = Seq::<Value>::empty();
    assert(step(code, consts, lines, 0, empty).stack =~= seq![a]);
    assert(step(code, consts, lines, 2, seq![a]).stack =~= seq![a, b]);
    assert(seq![a, b].take(0) =~= empty);
    assert(run_spec(code, consts, lines, 4, seq![a, b]) == (
        Outcome::NeedsArithmetic(ArithOp::Subtract, numbers[0], numbers[1]),
        5int,
        empty,
    ));
    assert(run_spec(code, consts, lines, 2, seq![a]) == run_spec(code, consts, lines, 4, seq![a, b]));
    let dv = Value::Number(d);
    assert(step(code, consts, lines, 5, seq![dv]).stack =~= seq![dv, c]);
    assert(seq![dv, c].take(0) =~= empty);
    assert(run_spec(code, consts, lines, 7, seq![dv, c]) == (
        Outcome::NeedsArithmetic(ArithOp::Subtract, d, numbers[2]),
        8int,
        empty,
    ));
    assert(seq![Value::Number(e)].drop_last() =~= empty);
}

/// Multiplication binds tighter than addition: for a source that reads as
/// `a + b * c`, the machine first asks for `b * c`; handed that product `m`,
/// it asks for `a + m`; handed that sum `t`, it returns `t`.
pub proof fn lemma_product_before_sum(
    buf: Seq<char>,
    numbers: Seq<u64>,
    lines: Seq<usize>,
    m: u64,
    t: u64,
)
    requires
        reads_as(
            buf,
            0,
            seq![
                TokenType::Number,
                TokenType::Plus,
                TokenType::Number,
                TokenType::Star,
                TokenType::Number,
                TokenType::EOF,
            ],
        ),
        numbers.len() >= 3,
    ensures
        compiled(buf, numbers, 0) is Some,
        ({
            let (code, used) = compiled(buf, numbers, 0)->0;
            let consts = number_values(numbers, 0, used);
            &&& run_spec(code, consts, lines, 0, Seq::empty()) == (
                Outcome::NeedsArithmetic(ArithOp::Multiply, numbers[1], numbers[2]),
                7int,
                seq![Value::Number(numbers[0])],
            )
            &&& run_spec(code, consts, lines, 7, seq![Value::Number(numbers[0]), Value::Number(m)])
                == (
                Outcome::NeedsArithmetic(ArithOp::Add, numbers[0], m),
                8int,
                Seq::<Value>::empty(),
            )
            &&& run_spec(code, consts, lines, 8, seq![Value::Number(t)]) == (
                Outcome::Finished(Value::Number(t)),
                9int,
                Seq::<Value>::empty(),
            )
        }),
{
    lemma_product_compiles_first(buf, numbers);
    let (code, used) = compiled(buf, numbers, 0)->0;
    let consts = number_values(numbers, 0, used);
    let a = Value::Number(numbers[0]);
    let b = Value::Number(numbers[1]);
    let c = Value::Number(numbers[2]);
    assert(consts[0] == a && consts[1] == b && consts[2] == c);
    let empty = Seq::<Value>::empty();
    assert(step(code, consts, lines, 0, empty).stack =~= seq![a]);
    assert(step(code, consts, lines, 2, seq![a]).stack =~= seq![a, b]);
    assert(step(code, consts, lines, 4, seq![a, b]).stack =~= seq![a, b, c]);
    assert(seq![a, b, c].take(1) =~= seq![a]);
    assert(run_spec(code, consts, lines, 6, seq![a, b, c]) == (
        Outcome::NeedsArithmetic(ArithOp::Multiply, numbers[1], numbers[2]),
        7int,
        seq![a],
    ));
    assert(run_spec(code, consts, lines, 4, seq![a, b]) == run_spec(code, consts, lines, 6, seq![a, b, c]));
    assert(run_spec(code, consts, lines, 2, seq![a]) == run_spec(code, consts, lines, 4, seq![a, b]));
    assert(seq![a, Value::Number(m)].take(0) =~= empty);
    assert(seq![Value::Number(t)].drop_last() =~= empty);
}

/// Parentheses group first: for a source that reads as `(a + b) * c`, the
/// machine first asks for `a + b`; handed that sum `t`, it asks for `t * c`;
/// handed that product `m`, it returns `m`.
pub proof fn lemma_group_before_product(
    buf: Seq<char>,
    numbers: Seq<u64>,
    lines: Seq<usize>,
    t: u64,
    m: u64,
)
    requires
        reads_as(
            buf,
            0,
            seq![
                TokenType::LeftParen,
                TokenType::Number,
                TokenType::Plus,
                TokenType::Number,
                TokenType::RightParen,
                TokenType::Star,
                TokenType::Number,
                TokenType::EOF,
            ],
        ),
        numbers.len() >= 3,
    ensures
        compiled(buf, numbers, 0) is Some,
        ({
            let (code, used) = compiled(buf, numbers, 0)->0;
            let consts = number_values(numbers, 0, used);
            &&& run_spec(code, consts, lines, 0, Seq::empty()) == (
                Outcome::NeedsArithmetic(ArithOp::Add, numbers[0], numbers[1]),
                5int,
                Seq::<Value>::empty(),
            )
            &&& run_spec(code, consts, lines, 5, seq![Value::Number(t)]) == (
                Outcome::NeedsArithmetic(ArithOp::Multiply, t, numbers[2]),
                8int,
                Seq::<Value>::empty(),
            )
            &&& run_spec(code, consts, lines, 8, seq![Value::Number(m)]) == (
                Outcome::Finished(Value::Number(m)),
                9int,
                Seq::<Value>::empty(),
            )
        }),
{
    lemma_group_compiles_first(buf, numbers);
    let (code, used) = compiled(buf, numbers, 0)->0;
    let consts = number_values(numbers, 0, used);
    let a = Value::Number(numbers[0]);
    let b = Value::Number(numbers[1]);
    let c = Value::Number(numbers[2]);
    assert(consts[0] == a && consts[1] == b && consts[2] == c);
    let empty = Seq::<Value>::empty();
    assert(step(code, consts, lines, 0, empty).stack =~= seq![a]);
    assert(step(code, consts, lines, 2, seq![a]).stack =~= seq![a, b]);
    assert(seq![a, b].take(0) =~= empty);
    assert(run_spec(code, consts, lines, 4, seq![a, b]) == (
        Outcome::NeedsArithmetic(ArithOp::Add, numbers[0], numbers[1]),
        5int,
        empty,
    ));
    assert(run_spec(code, consts, lines, 2, seq![a]) == run_spec(code, consts, lines, 4, seq![a, b]));
    let tv = Value::Number(t);
    assert(step(code, consts, lines, 5, seq![tv]).stack =~= seq![tv, c]);
    assert(seq![tv, c].take(0) =~= empty);
    assert(run_spec(code, consts, lines, 7, seq![tv, c]) == (
        Outcome::NeedsArithmetic(ArithOp::Multiply, t, numbers[2]),
        8int,
        empty,
    ));
    assert(seq![Value::Number(m)].drop_last() =~= empty);
}

/// The stack machine. Between a stop for arithmetic and the matching
/// `resume`, it keeps the chunk it is running and its place in it.
pub struct VM {
    ip: usize,
    stack: Vec<Value>,
    chunk: Chunk,
    running: bool,
}

impl VM {
    /// Offset of the next instruction.
    pub closed spec fn pc(&self) -> int {
        self.ip as int
    }

    /// The operand stack, bottom first.
    pub closed spec fn stack_view(&self) -> Seq<Value> {
        self.stack@
    }

    /// The chunk being run.
    pub closed spec fn program(&self) -> Chunk {
        self.chunk
    }

    /// Execution stopped for arithmetic and can be resumed.
    pub closed spec fn active(&self) -> bool {
        self.running
    }

    pub closed spec fn wf(&self) -> bool {
        &&& self.stack@.len() <= MAX_STACK_SIZE
        &&& self.chunk.wf()
        &&& self.running ==> runnable(
            self.chunk.code_view(),
            self.chunk.constants().len() as int,
            self.ip as int,
        )
    }

    /// Runs the program from `ip` with stack `s`.
    pub open spec fn run_from(chunk: Chunk, ip: int, s: Seq<Value>) -> (Outcome, int, Seq<Value>) {
        run_spec(chunk.code_view(), chunk.constants(), chunk.byte_lines(), ip, s)
    }

    /// The opcode `op` was just read: the machine is one byte past it.
    closed spec fn at_opcode(&self, op: OpCode) -> bool {
        &&& self.chunk.wf()
        &&& self.ip >= 1
        &&& runnable(
            self.chunk.code_view(),
            self.chunk.constants().len() as int,
            self.ip - 1,
        )
        &&& self.chunk.code_view()[self.ip - 1] == opcode_byte(op)
        &&& self.stack@.len() <= MAX_STACK_SIZE
    }

    /// From `before` the machine did what the instruction it had just read
    /// does, and stopped with `r` or not.
    closed spec fn stepped(&self, before: VM, r: Option<Outcome>) -> bool {
        let st = step(
            before.chunk.code_view(),
            before.chunk.constants(),
            before.chunk.byte_lines(),
            before.ip - 1,
            before.stack@,
        );
        &&& self.chunk == before.chunk
        &&& self.running == before.running
        &&& self.ip == st.ip
        &&& self.stack@ == st.stack
        &&& r == st.outcome
    }

    pub fn new() -> (r: Self)
        ensures
            r.wf(),
            !r.active(),
            r.stack_view() == Seq::<Value>::empty(),
            r.pc() == 0,
    {
        Self { ip: 0, stack: vec![], chunk: Chunk::new(), running: false }
    }

    /// Whether execution stopped for arithmetic and waits for `resume`.
    pub fn is_running(&self) -> (r: bool)
        ensures
            r == self.active(),
    {
        self.running
    }

    /// Compiles `source` into a fresh chunk, with `numbers` the bit patterns
    /// of its number literals in order, then runs it from the start on an
    /// empty stack until it finishes, fails, or needs arithmetic.
    pub fn interpret(&mut self, source: &str, numbers: &Vec<u64>) -> (r: Result<
        Outcome,
        InterpretError,
    >)
        requires
            old(self).wf(),
            source@.len() <= MAX_SOURCE_LEN,
        ensures
            final(self).wf(),
            r is Err ==> r == Err::<Outcome, InterpretError>(InterpretError::CompileError)
                && !final(self).active(),
            r is Ok ==> (r->Ok_0, final(self).pc(), final(self).stack_view()) == Self::run_from(
                final(self).program(),
                0,
                Seq::empty(),
            ) && (final(self).active() <==> r->Ok_0 is NeedsArithmetic),
            r is Ok ==> final(self).program().constants() == number_values(
                numbers@,
                0,
                final(self).program().constants().len() as int,
            ),
            r is Ok <==> compiled(source@, numbers@, 0) is Some,
            r is Ok ==> ({
                let (code, used) = compiled(source@, numbers@, 0)->0;
                &&& final(self).program().code_view() == code
                &&& final(self).program().constants().len() == used
            }),
    {
        let mut chunk = Chunk::new();
        let mut parser = Parser::new();
        if let Err(e) = parser.compile(source, numbers, &mut chunk) {
            self.running = false;
            return Err(e);
        }
        assert(chunk.constants() =~= number_values(numbers@, 0, chunk.constants().len() as int));
        proof {
            let (code, used) = compiled(source@, numbers@, 0)->0;
            assert(chunk.code_view() =~= Seq::<u8>::empty() + code);
        }
        self.chunk = chunk;
        self.ip = 0;
        self.stack = Vec::new();
        self.running = true;
        Ok(self.run())
    }

    /// Hands the result of the requested arithmetic back and runs on.
    pub fn resume(&mut self, bits: u64) -> (r: Outcome)
        requires
            old(self).wf(),
            old(self).active(),
        ensures
            final(self).wf(),
            final(self).program() == old(self).program(),
            final(self).active() <==> r is NeedsArithmetic,
            old(self).stack_view().len() >= MAX_STACK_SIZE ==> r == Outcome::Failed(
                FaultKind::StackOverflow,
                old(self).program().byte_lines()[old(self).pc()],
            ),
            old(self).stack_view().len() < MAX_STACK_SIZE ==> (r, final(self).pc(), final(self).stack_view()) == Self::run_from(
                old(self).program(),
                old(self).pc(),
                old(self).stack_view().push(Value::Number(bits)),
            ),
    {
        if self.push(Value::create_number(bits)).is_err() {
            self.running = false;
            return Outcome::Failed(FaultKind::StackOverflow, self.chunk.read_line(self.ip));
        }
        self.run()
    }

    fn read_byte(&mut self) -> (r: Byte)
        requires
            old(self).chunk.wf(),
            old(self).ip < old(self).chunk.code_view().len(),
        ensures
            final(self).ip == old(self).ip + 1,
            final(self).chunk == old(self).chunk,
            final(self).stack == old(self).stack,
            final(self).running == old(self).running,
            r@ == old(self).chunk.code_view()[old(self).ip as int],
    {
        proof {
            self.chunk.lemma_lengths();
        }
        let result = self.chunk.read_code(self.ip);
        self.ip += 1;
        result
    }

    fn read_const(&mut self) -> (r: Value)
        requires
            old(self).chunk.wf(),
            old(self).ip < old(self).chunk.code_view().len(),
            (old(self).chunk.code_view()[old(self).ip as int] as int) < old(
                self,
            ).chunk.constants().len(),
        ensures
            final(self).ip == old(self).ip + 1,
            final(self).chunk == old(self).chunk,
            final(self).stack == old(self).stack,
            final(self).running == old(self).running,
            r == old(self).chunk.constants()[old(self).chunk.code_view()[old(self).ip as int] as int],
    {
        let idx = self.read_byte().value() as usize;
        self.chunk.read_constant(idx)
    }

    fn read_long_const(&mut self) -> (r: Value)
        requires
            old(self).chunk.wf(),
            old(self).ip + 3 <= old(self).chunk.code_view().len(),
            long_index(
                old(self).chunk.code_view()[old(self).ip as int],
                old(self).chunk.code_view()[old(self).ip + 1],
                old(self).chunk.code_view()[old(self).ip + 2],
            ) < old(self).chunk.constants().len(),
        ensures
            final(self).ip == old(self).ip + 3,
            final(self).chunk == old(self).chunk,
            final(self).stack == old(self).stack,
            final(self).running == old(self).running,
            r == old(self).chunk.constants()[long_index(
                old(self).chunk.code_view()[old(self).ip as int],
                old(self).chunk.code_view()[old(self).ip + 1],
                old(self).chunk.code_view()[old(self).ip + 2],
            )],
    {
        let i1 = self.read_byte().value() as usize;
        let i2 = self.read_byte().value() as usize;
        let i3 = self.read_byte().value() as usize;
        let idx = i1 << 16 | i2 << 8 | i3;
        assert(idx == i1 * 65536 + i2 * 256 + i3) by (bit_vector)
            requires
                i1 < 256usize,
                i2 < 256usize,
                i3 < 256usize,
                idx == i1 << 16 | i2 << 8 | i3,
        ;
        self.chunk.read_constant(idx)
    }

    /// Runs until an instruction stops execution.
    fn run(&mut self) -> (r: Outcome)
        requires
            old(self).wf(),
            old(self).running,
        ensures
            final(self).wf(),
            final(self).chunk == old(self).chunk,
            final(self).running <==> r is NeedsArithmetic,
            (r, final(self).ip as int, final(self).stack@) == Self::run_from(
                old(self).chunk,
                old(self).ip as int,
                old(self).stack@,
            ),
    {
        loop
            invariant
                self.wf(),
                self.running,
                self.chunk == old(self).chunk,
                Self::run_from(self.chunk, self.ip as int, self.stack@) == Self::run_from(
                    old(self).chunk,
                    old(self).ip as int,
                    old(self).stack@,
                ),
            decreases self.chunk.code_view().len() - self.ip,
        {
            let ghost before = *self;
            let instruction = self.read_byte();
            let stop = match OpCode::from_byte(instruction) {
                Some(op) => match op {
                    OpCode::OpConstant => self.execute_constant(),
                    OpCode::OpConstantLong => self.execute_long_constant(),
                    OpCode::OpReturn => self.execute_return(),
                    OpCode::OpNegate => self.execute_negate(),
                    OpCode::OpAdd => self.execute_add(),
                    OpCode::OpSubtract => self.execute_subtract(),
                    OpCode::OpMultiply => self.execute_multiply(),
                    OpCode::OpDivide => self.execute_divide(),
                    OpCode::OpNil => self.execute_nil(),
                    OpCode::OpTrue => self.execute_true(),
                    OpCode::OpFalse => self.execute_false(),
                    OpCode::OpNot => self.execute_not(),
                    OpCode::OpEqual => self.execute_equal(),
                    OpCode::OpLess => self.execute_less(),
                    OpCode::OpGreater => self.execute_greater(),
                },
                None => None,
            };
            proof {
                lemma_step_keeps_stack_bound(
                    before.chunk.code_view(),
                    before.chunk.constants(),
                    before.chunk.byte_lines(),
                    before.ip as int,
                    before.stack@,
                );
            }
            if let Some(outcome) = stop {
                if !matches!(outcome, Outcome::NeedsArithmetic(_, _, _)) {
                    self.running = false;
                }
                return outcome;
            }
        }
    }

    fn execute_less(&mut self) -> (r: Option<Outcome>)
        requires
            old(self).at_opcode(OpCode::OpLess),
        ensures
            final(self).stepped(*old(self), r),
    {
        self.comparison(false)
    }

    fn execute_greater(&mut self) -> (r: Option<Outcome>)
        requires
            old(self).at_opcode(OpCode::OpGreater),
        ensures
            final(self).stepped(*old(self), r),
    {
        self.comparison(true)
    }

    /// `GREATER` (when `greater`) or `LESS`: both operands must be numbers.
    fn comparison(&mut self, greater: bool) -> (r: Option<Outcome>)
        requires
            old(self).at_opcode(OpCode::OpGreater) || old(self).at_opcode(OpCode::OpLess),
            greater <==> old(self).at_opcode(OpCode::OpGreater),
        ensures
            final(self).stepped(*old(self), r),
    {
        let line = self.chunk.read_line(self.ip - 1);
        if self.stack.len() < 2 {
            return Some(Outcome::Failed(FaultKind::StackUnderflow, line));
        }
        if !self.peek_stack(0).is_number() || !self.peek_stack(1).is_number() {
            return Some(self.runtime_error(FaultKind::OperandsNotNumbers));
        }
        let b = match self.pop() {
            Ok(v) => v,
            Err(_) => return Some(Outcome::Failed(FaultKind::StackUnderflow, line)),
        };
        let a = match self.pop() {
            Ok(v) => v,
            Err(_) => return Some(Outcome::Failed(FaultKind::StackUnderflow, line)),
        };
        let result = if greater {
            a.is_greater_than(&b)
        } else {
            a.is_less_than(&b)
        };
        match self.push(Value::create_boolean(result)) {
            Ok(()) => {
                assert(self.stack@ =~= old(self).stack@.take(old(self).stack@.len() - 2).push(
                    Value::Boolean(result),
                ));
                None
            },
            Err(_) => Some(Outcome::Failed(FaultKind::StackOverflow, line)),
        }
    }

    fn execute_equal(&mut self) -> (r: Option<Outcome>)
        requires
            old(self).at_opcode(OpCode::OpEqual),
        ensures
            final(self).stepped(*old(self), r),
    {
        let line = self.chunk.read_line(self.ip - 1);
        let b = match self.pop() {
            Ok(v) => v,
            Err(_) => {
                assert(self.stack@ =~= Seq::<Value>::empty());
                return Some(Outcome::Failed(FaultKind::StackUnderflow, line));
            },
        };
        let a = match self.pop() {
            Ok(v) => v,
            Err(_) => {
                assert(self.stack@ =~= Seq::<Value>::empty());
                return Some(Outcome::Failed(FaultKind::StackUnderflow, line));
            },
        };
        match self.push(Value::create_boolean(a.is_equal_to(&b))) {
            Ok(()) => {
                assert(self.stack@ =~= old(self).stack@.take(old(self).stack@.len() - 2).push(
                    Value::Boolean(values_equal(a, b)),
                ));
                None
            },
            Err(_) => Some(Outcome::Failed(FaultKind::StackOverflow, line)),
        }
    }

    fn execute_not(&mut self) -> (r: Option<Outcome>)
        requires
            old(self).at_opcode(OpCode::OpNot),
        ensures
            final(self).stepped(*old(self), r),
    {
        let line = self.chunk.read_line(self.ip - 1);
        let value = match self.pop() {
            Ok(v) => v.is_falsey(),
            Err(_) => return Some(Outcome::Failed(FaultKind::StackUnderflow, line)),
        };
        match self.push(Value::create_boolean(value)) {
            Ok(()) => None,
            Err(_) => Some(Outcome::Failed(FaultKind::StackOverflow, line)),
        }
    }

    fn execute_nil(&mut self) -> (r: Option<Outcome>)
        requires
            old(self).at_opcode(OpCode::OpNil),
        ensures
            final(self).stepped(*old(self), r),
    {
        let line = self.chunk.read_line(self.ip - 1);
        match self.push(Value::create_nil()) {
            Ok(()) => None,
            Err(_) => Some(Outcome::Failed(FaultKind::StackOverflow, line)),
        }
    }

    fn execute_true(&mut self) -> (r: Option<Outcome>)
        requires
            old(self).at_opcode(OpCode::OpTrue),
        ensures
            final(self).stepped(*old(self), r),
    {
        let line = self.chunk.read_line(self.ip - 1);
        match self.push(Value::create_boolean(true)) {
            Ok(()) => None,
            Err(_) => Some(Outcome::Failed(FaultKind::StackOverflow, line)),
        }
    }

    fn execute_false(&mut self) -> (r: Option<Outcome>)
        requires
            old(self).at_opcode(OpCode::OpFalse),
        ensures
            final(self).stepped(*old(self), r),
    {
        let line = self.chunk.read_line(self.ip - 1);
        match self.push(Value::create_boolean(false)) {
            Ok(()) => None,
            Err(_) => Some(Outcome::Failed(FaultKind::StackOverflow, line)),
        }
    }

    fn execute_constant(&mut self) -> (r: Option<Outcome>)
        requires
            old(self).at_opcode(OpCode::OpConstant),
        ensures
            final(self).stepped(*old(self), r),
    {
        let line = self.chunk.read_line(self.ip - 1);
        let constant = self.read_const();
        match self.push(constant) {
            Ok(()) => None,
            Err(_) => Some(Outcome::Failed(FaultKind::StackOverflow, line)),
        }
    }

    fn execute_long_constant(&mut self) -> (r: Option<Outcome>)
        requires
            old(self).at_opcode(OpCode::OpConstantLong),
        ensures
            final(self).stepped(*old(self), r),
    {
        let line = self.chunk.read_line(self.ip - 1);
        let constant = self.read_long_const();
        match self.push(constant) {
            Ok(()) => None,
            Err(_) => Some(Outcome::Failed(FaultKind::StackOverflow, line)),
        }
    }

    fn execute_return(&mut self) -> (r: Option<Outcome>)
        requires
            old(self).at_opcode(OpCode::OpReturn),
        ensures
            final(self).stepped(*old(self), r),
    {
        let line = self.chunk.read_line(self.ip - 1);
        match self.pop() {
            Ok(v) => Some(Outcome::Finished(v)),
            Err(_) => Some(Outcome::Failed(FaultKind::StackUnderflow, line)),
        }
    }

    fn execute_negate(&mut self) -> (r: Option<Outcome>)
        requires
            old(self).at_opcode(OpCode::OpNegate),
        ensures
            final(self).stepped(*old(self), r),
    {
        let line = self.chunk.read_line(self.ip - 1);
        if self.stack.len() == 0 {
            return Some(Outcome::Failed(FaultKind::StackUnderflow, line));
        }
        if self.peek_stack(0).is_number() {
            let value = match self.pop() {
                Ok(v) => v,
                Err(_) => return Some(Outcome::Failed(FaultKind::StackUnderflow, line)),
            };
            match self.push(value.negate()) {
                Ok(()) => None,
                Err(_) => Some(Outcome::Failed(FaultKind::StackOverflow, line)),
            }
        } else {
            Some(self.runtime_error(FaultKind::OperandNotNumber))
        }
    }

    /// The value `idx` places below the top of the stack.
    fn peek_stack(&self, idx: usize) -> (r: Value)
        requires
            idx < self.stack@.len(),
        ensures
            r == self.stack@[self.stack@.len() - 1 - idx],
    {
        self.stack[self.stack.len() - idx - 1]
    }

    /// Stops on a type error: clears the stack and reports the line of the
    /// instruction just read.
    fn runtime_error(&mut self, kind: FaultKind) -> (r: Outcome)
        requires
            old(self).chunk.wf(),
            old(self).ip >= 1,
        ensures
            final(self).chunk == old(self).chunk,
            final(self).ip == old(self).ip,
            final(self).running == old(self).running,
            final(self).stack@ == Seq::<Value>::empty(),
            r == Outcome::Failed(
                kind,
                if old(self).ip - 1 < old(self).chunk.code_view().len() {
                    old(self).chunk.byte_lines()[old(self).ip - 1]
                } else {
                    0
                },
            ),
    {
        let instruction = self.ip - 1;
        let line = self.chunk.read_line(instruction);
        self.stack.clear();
        Outcome::Failed(kind, line)
    }

    fn execute_add(&mut self) -> (r: Option<Outcome>)
        requires
            old(self).at_opcode(OpCode::OpAdd),
        ensures
            final(self).stepped(*old(self), r),
    {
        self.arithmetic(ArithOp::Add)
    }

    fn execute_subtract(&mut self) -> (r: Option<Outcome>)
        requires
            old(self).at_opcode(OpCode::OpSubtract),
        ensures
            final(self).stepped(*old(self), r),
    {
        self.arithmetic(ArithOp::Subtract)
    }

    fn execute_multiply(&mut self) -> (r: Option<Outcome>)
        requires
            old(self).at_opcode(OpCode::OpMultiply),
        ensures
            final(self).stepped(*old(self), r),
    {
        self.arithmetic(ArithOp::Multiply)
    }

    fn execute_divide(&mut self) -> (r: Option<Outcome>)
        requires
            old(self).at_opcode(OpCode::OpDivide),
        ensures
            final(self).stepped(*old(self), r),
    {
        self.arithmetic(ArithOp::Divide)
    }

    /// Pops the two numeric operands, right one first, and asks for `op`.
    fn arithmetic(&mut self, op: ArithOp) -> (r: Option<Outcome>)
        requires
            old(self).chunk.wf(),
            old(self).ip >= 1,
            old(self).ip - 1 < old(self).chunk.code_view().len(),
            arith_op(old(self).chunk.code_view()[old(self).ip - 1]) == Some(op),
        ensures
            final(self).stepped(*old(self), r),
    {
        let line = self.chunk.read_line(self.ip - 1);
        if self.stack.len() < 2 {
            return Some(Outcome::Failed(FaultKind::StackUnderflow, line));
        }
        if !self.peek_stack(0).is_number() || !self.peek_stack(1).is_number() {
            return Some(self.runtime_error(FaultKind::OperandsNotNumbers));
        }
        let arg2 = match self.pop() {
            Ok(v) => v,
            Err(_) => return Some(Outcome::Failed(FaultKind::StackUnderflow, line)),
        };
        let arg1 = match self.pop() {
            Ok(v) => v,
            Err(_) => return Some(Outcome::Failed(FaultKind::StackUnderflow, line)),
        };
        match (arg1, arg2) {
            (Value::Number(lhs), Value::Number(rhs)) => {
                assert(self.stack@ =~= old(self).stack@.take(old(self).stack@.len() - 2));
                Some(Outcome::NeedsArithmetic(op, lhs, rhs))
            },
            _ => Some(Outcome::Failed(FaultKind::OperandsNotNumbers, line)),
        }
    }

    /// Pushes `value`, or fails on a full stack.
    fn push(&mut self, value: Value) -> (r: Result<(), InterpretError>)
        ensures
            final(self).chunk == old(self).chunk,
            final(self).ip == old(self).ip,
            final(self).running == old(self).running,
            old(self).stack@.len() >= MAX_STACK_SIZE ==> r == Err::<(), InterpretError>(
                InterpretError::RuntimeError,
            ) && final(self).stack@ == old(self).stack@,
            old(self).stack@.len() < MAX_STACK_SIZE ==> r is Ok && final(self).stack@ == old(
                self,
            ).stack@.push(value),
    {
        if self.stack.len() >= MAX_STACK_SIZE {
            return Err(InterpretError::RuntimeError);
        }
        self.stack.push(value);
        Ok(())
    }

    /// Pops the top value, or fails on an empty stack.
    fn pop(&mut self) -> (r: Result<Value, InterpretError>)
        ensures
            final(self).chunk == old(self).chunk,
            final(self).ip == old(self).ip,
            final(self).running == old(self).running,
            old(self).stack@.len() == 0 ==> r == Err::<Value, InterpretError>(
                InterpretError::RuntimeError,
            ) && final(self).stack@ == old(self).stack@,
            old(self).stack@.len() > 0 ==> r == Ok::<Value, InterpretError>(old(self).stack@.last())
                && final(self).stack@ == old(self).stack@.drop_last(),
    {
        match self.stack.pop() {
            Some(value) => Ok(value),
            None => Err(InterpretError::RuntimeError),
        }
    }
}

} // verus!
