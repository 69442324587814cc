use vstd::prelude::*;

use crate::values::Value;

verus! {

/// One unit of bytecode: an opcode or an operand byte.
#[derive(Clone, Copy, Debug, PartialEq, Eq, Structural)]
pub struct Byte(pub u8);

impl View for Byte {
    type V = u8;

    open spec fn view(&self) -> u8 {
        self.0
    }
}

impl Byte {
    pub fn new(value: u8) -> (r: Byte)
        ensures
            r@ == value,
    {
        Byte(value)
    }

    pub fn value(&self) -> (r: u8)
        ensures
            r == self@,
    {
        self.0
    }
}

/// The instruction set.
#[derive(Clone, Copy, Debug, PartialEq, Eq, Structural)]
pub enum OpCode {
    OpConstant,
    OpConstantLong,
    OpNil,
    OpTrue,
    OpFalse,
    OpNegate,
    OpAdd,
    OpSubtract,
    OpMultiply,
    OpDivide,
    OpNot,
    OpReturn,
    OpEqual,
    OpGreater,
    OpLess,
}

/// The byte that encodes each opcode.
pub open spec fn opcode_byte(op: OpCode) -> u8 {
    match op {
        OpCode::OpConstant => 0,
        OpCode::OpConstantLong => 1,
        OpCode::OpNil => 2,
        OpCode::OpTrue => 3,
        OpCode::OpFalse => 4,
        OpCode::OpNegate => 5,
        OpCode::OpAdd => 6,
        OpCode::OpSubtract => 7,
        OpCode::OpMultiply => 8,
        OpCode::OpDivide => 9,
        OpCode::OpNot => 10,
        OpCode::OpReturn => 11,
        OpCode::OpEqual => 12,
        OpCode::OpGreater => 13,
        OpCode::OpLess => 14,
    }
}

/// The opcode that a byte encodes, if any.
pub open spec fn decode_opcode(b: u8) -> Option<OpCode> {
    if b == 0 {
        Some(OpCode::OpConstant)
    } else if b == 1 {
        Some(OpCode::OpConstantLong)
    } else if b == 2 {
        Some(OpCode::OpNil)
    } else if b == 3 {
        Some(OpCode::OpTrue)
    } else if b == 4 {
        Some(OpCode::OpFalse)
    } else if b == 5 {
        Some(OpCode::OpNegate)
    } else if b == 6 {
        Some(OpCode::OpAdd)
    } else if b == 7 {
        Some(OpCode::OpSubtract)
    } else if b == 8 {
        Some(OpCode::OpMultiply)
    } else if b == 9 {
        Some(OpCode::OpDivide)
    } else if b == 10 {
        Some(OpCode::OpNot)
    } else if b == 11 {
        Some(OpCode::OpReturn)
    } else if b == 12 {
        Some(OpCode::OpEqual)
    } else if b == 13 {
        Some(OpCode::OpGreater)
    } else if b == 14 {
        Some(OpCode::OpLess)
    } else {
        None
    }
}

impl OpCode {
    pub fn to_byte(self) -> (r: Byte)
        ensures
            r@ == opcode_byte(self),
    {
        match self {
            OpCode::OpConstant => Byte(0),
            OpCode::OpConstantLong => Byte(1),
            OpCode::OpNil => Byte(2),
            OpCode::OpTrue => Byte(3),
            OpCode::OpFalse => Byte(4),
            OpCode::OpNegate => Byte(5),
            OpCode::OpAdd => Byte(6),
            OpCode::OpSubtract => Byte(7),
            OpCode::OpMultiply => Byte(8),
            OpCode::OpDivide => Byte(9),
            OpCode::OpNot => Byte(10),
            OpCode::OpReturn => Byte(11),
            OpCode::OpEqual => Byte(12),
            OpCode::OpGreater => Byte(13),
            OpCode::OpLess => Byte(14),
        }
    }

    pub fn from_byte(byte: Byte) -> (r: Option<OpCode>)
        ensures
            r == decode_opcode(byte@),
    {
        match byte.0 {
            0 => Some(OpCode::OpConstant),
            1 => Some(OpCode::OpConstantLong),
            2 => Some(OpCode::OpNil),
            3 => Some(OpCode::OpTrue),
            4 => Some(OpCode::OpFalse),
            5 => Some(OpCode::OpNegate),
            6 => Some(OpCode::OpAdd),
            7 => Some(OpCode::OpSubtract),
            8 => Some(OpCode::OpMultiply),
            9 => Some(OpCode::OpDivide),
            10 => Some(OpCode::OpNot),
            11 => Some(OpCode::OpReturn),
            12 => Some(OpCode::OpEqual),
            13 => Some(OpCode::OpGreater),
            14 => Some(OpCode::OpLess),
            _ => None,
        }
    }
}

/// Number of constants that a `CONSTANT_LONG` operand can address.
pub const MAX_CONSTANTS: usize = 0x100_0000;

/// The three operand bytes of `CONSTANT_LONG` read as a big-endian index.
pub open spec fn long_index(b1: u8, b2: u8, b3: u8) -> int {
    b1 as int * 65536 + b2 as int * 256 + b3 as int
}

/// The three operand bytes of `CONSTANT_LONG` for the index `idx`, most
/// significant first.
pub open spec fn long_operands(idx: int) -> Seq<u8> {
    seq![(idx / 65536) as u8, ((idx / 256) % 256) as u8, (idx % 256) as u8]
}

/// The bytes that `write_const` emits for the constant at `idx`: the short
/// form while the index fits in one byte, else the long form.
pub open spec fn constant_instruction(idx: int) -> Seq<u8> {
    if idx <= 255 {
        seq![opcode_byte(OpCode::OpConstant), idx as u8]
    } else {
        seq![opcode_byte(OpCode::OpConstantLong)] + long_operands(idx)
    }
}

/// Writing any index below 2^24 as the operands of `CONSTANT_LONG` and reading
/// them back gives the index; the short form holds an index below 256 as is.
pub proof fn lemma_long_index_round_trip(k: int)
    requires
        0 <= k < MAX_CONSTANTS,
    ensures
        long_index(long_operands(k)[0], long_operands(k)[1], long_operands(k)[2]) == k,
        k > 255 ==> constant_instruction(k).len() == 4 && constant_instruction(k)[1]
            == long_operands(k)[0] && constant_instruction(k)[2] == long_operands(k)[1]
            && constant_instruction(k)[3] == long_operands(k)[2],
        k <= 255 ==> constant_instruction(k).len() == 2 && constant_instruction(k)[1] as int == k,
{
    let b1 = k / 65536;
    let b2 = (k / 256) % 256;
    let b3 = k % 256;
    assert(b1 < 256);
    assert(b1 * 65536 + b2 * 256 + b3 == k) by (nonlinear_arith)
        requires
            b1 == k / 65536,
            b2 == (k / 256) % 256,
            b3 == k % 256,
            0 <= k,
    {
        assert(k / 256 == (k / 65536) * 256 + (k / 256) % 256);
    }
}

/// Bytes that an instruction starting with `op` takes, operands included.
pub open spec fn instruction_len(op: u8) -> int {
    if op == opcode_byte(OpCode::OpConstant) {
        2
    } else if op == opcode_byte(OpCode::OpConstantLong) {
        4
    } else {
        1
    }
}

/// The constant operand of the instruction at `i`, if it has one, addresses
/// one of the first `n` constants.
pub open spec fn operand_in_pool(code: Seq<u8>, n: int, i: int) -> bool {
    &&& code[i] == opcode_byte(OpCode::OpConstant) ==> (code[i + 1] as int) < n
    &&& code[i] == opcode_byte(OpCode::OpConstantLong) ==> long_index(
        code[i + 1],
        code[i + 2],
        code[i + 3],
    ) < n
}

/// `code[i..j)` is a sequence of whole instructions whose constant operands
/// address one of the first `n` constants.
pub open spec fn decodes(code: Seq<u8>, n: int, i: int, j: int) -> bool
    decreases j - i,
{
    if i >= j {
        i == j
    } else {
        let k = i + instruction_len(code[i]);
        &&& k <= j
        &&& operand_in_pool(code, n, i)
        &&& decodes(code, n, k, j)
    }
}

/// A program that the machine can run from offset `ip`: whole instructions up
/// to a final `RETURN`.
pub open spec fn runnable(code: Seq<u8>, n: int, ip: int) -> bool {
    &&& code.len() >= 1
    &&& code.last() == opcode_byte(OpCode::OpReturn)
    &&& 0 <= ip < code.len()
    &&& decodes(code, n, ip, code.len() - 1)
}

proof fn lemma_decodes_extend(c1: Seq<u8>, n1: int, c2: Seq<u8>, n2: int, i: int, j: int)
    requires
        decodes(c1, n1, i, j),
        0 <= i,
        j <= c1.len() <= c2.len(),
        c2.subrange(0, c1.len() as int) == c1,
        n1 <= n2,
    ensures
        decodes(c2, n2, i, j),
    decreases j - i,
{
    if i < j {
        let k = i + instruction_len(c1[i]);
        assert(c2[i] == c1[i]);
        if c1[i] == opcode_byte(OpCode::OpConstant) {
            assert(c2[i + 1] == c1[i + 1]);
        }
        if c1[i] == opcode_byte(OpCode::OpConstantLong) {
            assert(c2[i + 1] == c1[i + 1]);
            assert(c2[i + 2] == c1[i + 2]);
            assert(c2[i + 3] == c1[i + 3]);
        }
        lemma_decodes_extend(c1, n1, c2, n2, k, j);
    }
}

proof fn lemma_decodes_concat(c: Seq<u8>, n: int, i: int, j: int, k: int)
    requires
        decodes(c, n, i, j),
        decodes(c, n, j, k),
        i <= j,
    ensures
        decodes(c, n, i, k),
    decreases j - i,
{
    if i < j {
        lemma_decodes_concat(c, n, i + instruction_len(c[i]), j, k);
    }
}

/// `after` is `before` with whole instructions appended to its code and
/// constants appended to its pool, and the appended instructions address
/// constants of the pool.
pub open spec fn appended(before: Chunk, after: Chunk) -> bool {
    let n0 = before.code_view().len();
    let k0 = before.constants().len();
    &&& after.wf()
    &&& n0 <= after.code_view().len()
    &&& after.code_view().subrange(0, n0 as int) == before.code_view()
    &&& k0 <= after.constants().len()
    &&& after.constants().subrange(0, k0 as int) == before.constants()
    &&& decodes(after.code_view(), after.constants().len() as int, n0 as int, after.code_view().len() as int)
}

/// A chunk extends itself.
pub proof fn lemma_appended_refl(c: Chunk)
    requires
        c.wf(),
    ensures
        appended(c, c),
{
    assert(c.code_view().subrange(0, c.code_view().len() as int) =~= c.code_view());
    assert(c.constants().subrange(0, c.constants().len() as int) =~= c.constants());
}

/// Extending is transitive.
pub proof fn lemma_appended_trans(a: Chunk, b: Chunk, c: Chunk)
    requires
        appended(a, b),
        appended(b, c),
    ensures
        appended(a, c),
{
    let na = a.code_view().len() as int;
    let nb = b.code_view().len() as int;
    assert(c.code_view().subrange(0, na) =~= c.code_view().subrange(0, nb).subrange(0, na));
    assert(c.constants().subrange(0, a.constants().len() as int) =~= c.constants().subrange(
        0,
        b.constants().len() as int,
    ).subrange(0, a.constants().len() as int));
    lemma_decodes_extend(
        b.code_view(),
        b.constants().len() as int,
        c.code_view(),
        c.constants().len() as int,
        na,
        nb,
    );
    lemma_decodes_concat(c.code_view(), c.constants().len() as int, na, nb, c.code_view().len() as int);
}

/// Appending one byte that is an instruction without operands extends the
/// chunk.
pub proof fn lemma_appended_simple(before: Chunk, after: Chunk, b: u8)
    requires
        before.wf(),
        after.wf(),
        after.code_view() == before.code_view().push(b),
        after.constants() == before.constants(),
        instruction_len(b) == 1,
    ensures
        appended(before, after),
{
    let n0 = before.code_view().len() as int;
    assert(after.code_view().subrange(0, n0) =~= before.code_view());
    assert(after.constants().subrange(0, before.constants().len() as int) =~= before.constants());
    assert(decodes(after.code_view(), after.constants().len() as int, n0 + 1, n0 + 1));
}

/// What `write_const` does extends the chunk.
pub proof fn lemma_appended_constant(before: Chunk, after: Chunk, v: Value)
    requires
        before.wf(),
        after.wf(),
        before.constants().len() < MAX_CONSTANTS,
        after.constants() == before.constants().push(v),
        after.code_view() == before.code_view() + constant_instruction(
            before.constants().len() as int,
        ),
    ensures
        appended(before, after),
{
    let n0 = before.code_view().len() as int;
    let idx = before.constants().len() as int;
    let ins = constant_instruction(idx);
    let code = after.code_view();
    lemma_long_index_round_trip(idx);
    assert(code.subrange(0, n0) =~= before.code_view());
    assert(after.constants().subrange(0, idx) =~= before.constants());
    assert(code[n0] == ins[0]);
    assert(code[n0 + 1] == ins[1]);
    if idx > 255 {
        assert(code[n0 + 2] == ins[2]);
        assert(code[n0 + 3] == ins[3]);
    }
    assert(decodes(code, after.constants().len() as int, n0 + ins.len(), n0 + ins.len()));
}

/// Ending an extended chunk with `RETURN` gives a program that runs from where
/// the extension began.
pub proof fn lemma_runnable_after_return(start: Chunk, before: Chunk, after: Chunk)
    requires
        appended(start, before),
        after.code_view() == before.code_view().push(opcode_byte(OpCode::OpReturn)),
        after.constants() == before.constants(),
    ensures
        runnable(after.code_view(), after.constants().len() as int, start.code_view().len() as int),
{
    let n0 = start.code_view().len() as int;
    let n1 = before.code_view().len() as int;
    assert(after.code_view().subrange(0, n1) =~= before.code_view());
    lemma_decodes_extend(
        before.code_view(),
        before.constants().len() as int,
        after.code_view(),
        after.constants().len() as int,
        n0,
        n1,
    );
}

/// Start offset of the run `i` of a line table.
pub open spec fn run_start(lines: Seq<(usize, usize)>, i: int) -> int {
    if i == 0 {
        0
    } else {
        lines[i - 1].1 as int
    }
}

/// The bytecode of one compilation, its constant pool and its run-length line
/// table: each pair `(line, end)` covers the code from the previous pair's end
/// up to `end`, exclusive.
pub struct Chunk {
    code: Vec<Byte>,
    values: Vec<Value>,
    lines: Vec<(usize, usize)>,
    written: Ghost<Seq<usize>>,
}

impl Chunk {
    /// The code, byte by byte.
    pub closed spec fn code_view(&self) -> Seq<u8> {
        self.code@.map_values(|b: Byte| b@)
    }

    /// The constant pool.
    pub closed spec fn constants(&self) -> Seq<Value> {
        self.values@
    }

    /// For each byte of code, the source line it was written with.
    pub closed spec fn byte_lines(&self) -> Seq<usize> {
        self.written@
    }

    pub closed spec fn wf(&self) -> bool {
        let lines = self.lines@;
        &&& self.written@.len() == self.code@.len()
        &&& (lines.len() == 0 <==> self.code@.len() == 0)
        &&& lines.len() > 0 ==> lines.last().1 == self.code@.len()
        &&& forall|i: int, j: int| 0 <= i < j < lines.len() ==> lines[i].1 < lines[j].1
        &&& forall|i: int, o: int|
            0 <= i < lines.len() && run_start(lines, i) <= o < lines[i].1 ==> self.written@[o]
                == lines[i].0
    }

    /// Every byte has its line, and the code fits in memory.
    pub proof fn lemma_lengths(&self)
        requires
            self.wf(),
        ensures
            self.byte_lines().len() == self.code_view().len(),
            self.code_view().len() <= usize::MAX,
    {
    }

    pub fn new() -> (r: Chunk)
        ensures
            r.wf(),
            r.code_view() == Seq::<u8>::empty(),
            r.constants() == Seq::<Value>::empty(),
            r.byte_lines() == Seq::<usize>::empty(),
    {
        let r = Chunk { code: vec![], values: vec![], lines: vec![], written: Ghost(Seq::empty()) };
        assert(r.code_view() =~= Seq::<u8>::empty());
        r
    }

    /// Appends one byte written for source line `line`.
    pub fn write_code(&mut self, byte: Byte, line: usize)
        requires
            old(self).wf(),
        ensures
            final(self).wf(),
            final(self).code_view() == old(self).code_view().push(byte@),
            final(self).constants() == old(self).constants(),
            final(self).byte_lines() == old(self).byte_lines().push(line),
    {
        let ghost old_lines = self.lines@;
        let ghost old_len = self.code@.len();
        self.code.push(byte);
        self.written = Ghost(self.written@.push(line));
        let n = self.lines.len();
        if n > 0 && self.lines[n - 1].0 == line {
            self.lines.set(n - 1, (line, self.code.len()));
            assert forall|i: int, o: int|
                0 <= i < self.lines@.len() && run_start(self.lines@, i) <= o
                    < self.lines@[i].1 implies self.written@[o] == self.lines@[i].0 by {
                if i < n - 1 {
                    assert(run_start(self.lines@, i) == run_start(old_lines, i));
                } else {
                    assert(run_start(self.lines@, i) == run_start(old_lines, i));
                    if o < old_len {
                        assert(self.written@[o] == old_lines[i].0);
                    }
                }
            }
        } else {
            self.lines.push((line, self.code.len()));
            assert forall|i: int, o: int|
                0 <= i < self.lines@.len() && run_start(self.lines@, i) <= o
                    < self.lines@[i].1 implies self.written@[o] == self.lines@[i].0 by {
                if i < n {
                    assert(run_start(self.lines@, i) == run_start(old_lines, i));
                    assert(self.lines@[i] == old_lines[i]);
                } else {
                    assert(run_start(self.lines@, i) == old_len);
                }
            }
        }
        assert(self.code_view() =~= old(self).code_view().push(byte@));
    }

    /// Adds `value` to the constant pool and emits the instruction that loads
    /// it, all written for source line `line`. The pool holds no more
    /// constants than the long form's 24-bit operand addresses.
    pub fn write_const(&mut self, value: Value, line: usize)
        requires
            old(self).wf(),
            old(self).constants().len() < MAX_CONSTANTS,
        ensures
            final(self).wf(),
            final(self).constants() == old(self).constants().push(value),
            final(self).code_view() == old(self).code_view() + constant_instruction(
                old(self).constants().len() as int,
            ),
            final(self).byte_lines() == old(self).byte_lines() + Seq::new(
                constant_instruction(old(self).constants().len() as int).len(),
                |i: int| line,
            ),
    {
        let idx = self.add_constant(value);
        if idx > 255 {
            self.write_code(OpCode::OpConstantLong.to_byte(), line);
            self.write_code(Byte(((idx >> 16) & 0xFF) as u8), line);
            self.write_code(Byte(((idx >> 8) & 0xFF) as u8), line);
            self.write_code(Byte((idx & 0xFF) as u8), line);
            assert(((idx >> 16) & 0xFF) == idx / 65536) by (bit_vector)
                requires
                    idx < 0x100_0000usize,
            ;
            assert(((idx >> 8) & 0xFF) == (idx / 256) % 256) by (bit_vector);
            assert((idx & 0xFF) == idx % 256) by (bit_vector);
        } else {
            self.write_code(OpCode::OpConstant.to_byte(), line);
            self.write_code(Byte((idx & 0xFF) as u8), line);
            assert((idx & 0xFF) == idx) by (bit_vector)
                requires
                    idx <= 255usize,
            ;
        }
        assert(self.code_view() =~= old(self).code_view() + constant_instruction(idx as int));
        assert(self.byte_lines() =~= old(self).byte_lines() + Seq::new(
            constant_instruction(idx as int).len(),
            |i: int| line,
        ));
    }

    pub fn code_size(&self) -> (r: usize)
        ensures
            r == self.code_view().len(),
    {
        self.code.len()
    }

    pub fn read_code(&self, idx: usize) -> (r: Byte)
        requires
            idx < self.code_view().len(),
        ensures
            r@ == self.code_view()[idx as int],
    {
        self.code[idx]
    }

    /// The source line of the byte at `idx`: the line of the first run of the
    /// table that ends after `idx`, or 0 where there is none.
    pub fn read_line(&self, idx: usize) -> (r: usize)
        requires
            self.wf(),
        ensures
            idx < self.code_view().len() ==> r == self.byte_lines()[idx as int],
            idx >= self.code_view().len() ==> r == 0,
    {
        let mut i: usize = 0;
        while i < self.lines.len()
            invariant
                self.wf(),
                i <= self.lines@.len(),
                forall|j: int| 0 <= j < i ==> self.lines@[j].1 <= idx,
            decreases self.lines@.len() - i,
        {
            if idx < self.lines[i].1 {
                assert(run_start(self.lines@, i as int) <= idx);
                return self.lines[i].0;
            }
            i += 1;
        }
        0
    }

    fn add_constant(&mut self, value: Value) -> (r: usize)
        requires
            old(self).wf(),
        ensures
            final(self).wf(),
            r == old(self).constants().len(),
            final(self).constants() == old(self).constants().push(value),
            final(self).code_view() == old(self).code_view(),
            final(self).byte_lines() == old(self).byte_lines(),
    {
        self.values.push(value);
        self.values.len() - 1
    }

    pub fn constants_len(&self) -> (r: usize)
        ensures
            r == self.constants().len(),
    {
        self.values.len()
    }

    pub fn read_constant(&self, idx: usize) -> (r: Value)
        requires
            idx < self.constants().len(),
        ensures
            r == self.constants()[idx as int],
    {
        self.values[idx]
    }
}

/// Reading back the constant just added gives the value that was added.
pub proof fn lemma_constant_round_trip(before: Chunk, after: Chunk, v: Value, idx: int)
    requires
        after.constants() == before.constants().push(v),
        idx == before.constants().len(),
    ensures
        0 <= idx < after.constants().len(),
        after.constants()[idx] == v,
{
}

} // verus!
