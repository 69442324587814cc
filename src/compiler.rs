use vstd::prelude::*;

use crate::chunk::{
    appended, lemma_appended_constant, lemma_appended_refl, lemma_appended_simple,
    lemma_appended_trans, lemma_runnable_after_return, opcode_byte, runnable, Byte, Chunk, OpCode,
    MAX_CONSTANTS,
};
use crate::chunk::constant_instruction;
use crate::scanner::{
    lemma_token_bounds, skip_end, token_end, token_kind, token_matches, Scanner, Token, TokenType,
    MAX_SOURCE_LEN,
};
use crate::values::Value;
use crate::virtual_machine::InterpretError;

verus! {

/// Where a compile error points.
pub enum ErrorLocation {
    /// At the end of the source.
    AtEnd,
    /// At a token, given by its text.
    AtLexeme(String),
    /// Nowhere: the error is the token itself (a lexical error).
    Nowhere,
}

/// One compile error: the line and column of the token it concerns, where it
/// points, and what went wrong.
pub struct Diagnostic {
    pub line: usize,
    pub column: usize,
    pub location: ErrorLocation,
    pub message: String,
}

/// The binding strengths, weakest first.
#[derive(Clone, Copy, Debug, PartialEq, Eq, Structural)]
pub enum Precedence {
    Lowest,
    Assignment,
    Or,
    And,
    Equality,
    Comparison,
    Term,
    Factor,
    Unary,
    Call,
    Primary,
}

/// The rank of a precedence on the ladder, from 0 for `Lowest` to 10 for
/// `Primary`.
pub open spec fn rank(p: Precedence) -> int {
    match p {
        Precedence::Lowest => 0,
        Precedence::Assignment => 1,
        Precedence::Or => 2,
        Precedence::And => 3,
        Precedence::Equality => 4,
        Precedence::Comparison => 5,
        Precedence::Term => 6,
        Precedence::Factor => 7,
        Precedence::Unary => 8,
        Precedence::Call => 9,
        Precedence::Primary => 10,
    }
}

/// The precedence of a token kind used as an infix operator.
pub open spec fn infix_precedence(k: TokenType) -> Precedence {
    match k {
        TokenType::Minus | TokenType::Plus => Precedence::Term,
        TokenType::Slash | TokenType::Star => Precedence::Factor,
        TokenType::BangEqual | TokenType::EqualEqual => Precedence::Equality,
        TokenType::Greater | TokenType::GreateEqual | TokenType::Less | TokenType::LessEqual => {
            Precedence::Comparison
        },
        _ => Precedence::Lowest,
    }
}

/// The token kinds that begin an expression.
pub open spec fn has_prefix_rule(k: TokenType) -> bool {
    match k {
        TokenType::LeftParen | TokenType::Minus | TokenType::Bang | TokenType::Number
        | TokenType::Nil | TokenType::True | TokenType::False => true,
        _ => false,
    }
}

/// The precedence of the given rank; ranks past the top give `Primary`.
fn precedence_of_rank(value: u8) -> (r: Precedence)
    ensures
        rank(r) == if value <= 10 {
            value as int
        } else {
            10
        },
{
    match value {
        0 => Precedence::Lowest,
        1 => Precedence::Assignment,
        2 => Precedence::Or,
        3 => Precedence::And,
        4 => Precedence::Equality,
        5 => Precedence::Comparison,
        6 => Precedence::Term,
        7 => Precedence::Factor,
        8 => Precedence::Unary,
        9 => Precedence::Call,
        _ => Precedence::Primary,
    }
}

impl Precedence {
    fn rank(&self) -> (r: u8)
        ensures
            r as int == rank(*self),
    {
        match self {
            Precedence::Lowest => 0,
            Precedence::Assignment => 1,
            Precedence::Or => 2,
            Precedence::And => 3,
            Precedence::Equality => 4,
            Precedence::Comparison => 5,
            Precedence::Term => 6,
            Precedence::Factor => 7,
            Precedence::Unary => 8,
            Precedence::Call => 9,
            Precedence::Primary => 10,
        }
    }

    /// The next stronger precedence (`Primary` stays `Primary`).
    fn higher(&self) -> (r: Precedence)
        ensures
            rank(r) == if rank(*self) < 10 {
                rank(*self) + 1
            } else {
                10
            },
    {
        precedence_of_rank(self.rank() + 1)
    }
}

/// The values of the number literals `lo..hi` of a source, given their bit
/// patterns.
pub open spec fn number_values(numbers: Seq<u64>, lo: int, hi: int) -> Seq<Value> {
    Seq::new((hi - lo) as nat, |i: int| Value::Number(numbers[lo + i]))
}

/// The first token from cursor `p` on that is not a lexical error: its kind,
/// the cursor after it, and whether error tokens were passed over.
pub open spec fn next_good(buf: Seq<char>, p: int) -> (TokenType, int, bool)
    decreases buf.len() - p,
{
    let s = skip_end(buf, p, false);
    if p < 0 || p > buf.len() {
        (TokenType::EOF, p, true)
    } else if s >= buf.len() {
        (TokenType::EOF, s, false)
    } else {
        let e = token_end(buf, s);
        if token_kind(buf, s) != TokenType::Error {
            (token_kind(buf, s), e, false)
        } else if e <= p || e > buf.len() {
            (TokenType::EOF, e, true)
        } else {
            let r = next_good(buf, e);
            (r.0, r.1, true)
        }
    }
}

/// What a compilation works on: the source's characters, how many number
/// values the host supplied, and how many constants the chunk held before.
pub struct Ctx {
    pub buf: Seq<char>,
    pub supplied: int,
    pub base: int,
}

/// The result of parsing a construct without error: the bytes it emits, the
/// scanner's cursor and the current token's kind after it, and how many
/// number literals have been used.
pub struct Parsed {
    pub code: Seq<u8>,
    pub pos: int,
    pub cur: TokenType,
    pub used: int,
}

/// What is left to parse at cursor `p` with current token of kind `cur`.
pub open spec fn prog(x: Ctx, p: int, cur: TokenType) -> int {
    (x.buf.len() - p) + if cur != TokenType::EOF {
        1int
    } else {
        0int
    }
}

pub open spec fn unary_code(op: TokenType) -> Seq<u8> {
    if op == TokenType::Minus {
        seq![opcode_byte(OpCode::OpNegate)]
    } else {
        seq![opcode_byte(OpCode::OpNot)]
    }
}

pub open spec fn literal_code(op: TokenType) -> Seq<u8> {
    if op == TokenType::False {
        seq![opcode_byte(OpCode::OpFalse)]
    } else if op == TokenType::True {
        seq![opcode_byte(OpCode::OpTrue)]
    } else {
        seq![opcode_byte(OpCode::OpNil)]
    }
}

/// The instructions of each binary operator; `!=`, `>=` and `<=` are the
/// negations of `==`, `<` and `>`.
pub open spec fn binary_code(op: TokenType) -> Seq<u8> {
    match op {
        TokenType::Plus => seq![opcode_byte(OpCode::OpAdd)],
        TokenType::Minus => seq![opcode_byte(OpCode::OpSubtract)],
        TokenType::Star => seq![opcode_byte(OpCode::OpMultiply)],
        TokenType::Slash => seq![opcode_byte(OpCode::OpDivide)],
        TokenType::BangEqual => seq![opcode_byte(OpCode::OpEqual), opcode_byte(OpCode::OpNot)],
        TokenType::EqualEqual => seq![opcode_byte(OpCode::OpEqual)],
        TokenType::Greater => seq![opcode_byte(OpCode::OpGreater)],
        TokenType::GreateEqual => seq![opcode_byte(OpCode::OpLess), opcode_byte(OpCode::OpNot)],
        TokenType::Less => seq![opcode_byte(OpCode::OpLess)],
        _ => seq![opcode_byte(OpCode::OpGreater), opcode_byte(OpCode::OpNot)],
    }
}

/// The constant for the next number literal, while the host supplied a value
/// for it and the pool has room.
pub open spec fn sp_number(x: Ctx, p: int, cur: TokenType, k: int) -> Option<Parsed> {
    if k < 0 || k >= x.supplied || x.base + k >= MAX_CONSTANTS {
        None
    } else {
        Some(Parsed { code: constant_instruction(x.base + k), pos: p, cur, used: k + 1 })
    }
}

/// An expression.
pub open spec fn sp_expr(x: Ctx, p: int, cur: TokenType, k: int) -> Option<Parsed>
    decreases prog(x, p, cur), 5int,
{
    if p < 0 || p > x.buf.len() {
        None
    } else {
        sp_prec(x, p, cur, k, 1)
    }
}

/// An expression whose operators have at least rank `r`: a prefix
/// construct, then infix operators as long as they bind at least as strongly.
pub open spec fn sp_prec(x: Ctx, p: int, cur: TokenType, k: int, r: int) -> Option<Parsed>
    decreases prog(x, p, cur), 4int,
{
    if p < 0 || p > x.buf.len() {
        None
    } else {
        let (kind, ps1, err) = next_good(x.buf, p);
        if err || cur == TokenType::EOF || !has_prefix_rule(cur) || ps1 < p || ps1 > x.buf.len()
            || prog(x, ps1, kind) >= prog(x, p, cur) {
            None
        } else {
            match sp_prefix(x, ps1, kind, k, cur) {
                None => None,
                Some(a) => {
                    if a.pos < 0 || a.pos > x.buf.len() || prog(x, a.pos, a.cur) > prog(x, ps1, kind) {
                        None
                    } else {
                        sp_loop(x, a.pos, a.cur, a.used, r, a.code)
                    }
                },
            }
        }
    }
}

/// The infix part of `sp_prec`, after `acc` was emitted.
pub open spec fn sp_loop(
    x: Ctx,
    p: int,
    cur: TokenType,
    k: int,
    r: int,
    acc: Seq<u8>,
) -> Option<Parsed>
    decreases prog(x, p, cur), 3int,
{
    if p < 0 || p > x.buf.len() {
        None
    } else if rank(infix_precedence(cur)) < r {
        Some(Parsed { code: acc, pos: p, cur, used: k })
    } else {
        let (kind, ps1, err) = next_good(x.buf, p);
        if err || ps1 < p || ps1 > x.buf.len() || prog(x, ps1, kind) >= prog(x, p, cur) {
            None
        } else {
            match sp_infix(x, ps1, kind, k, cur) {
                None => None,
                Some(b) => {
                    if b.pos < 0 || b.pos > x.buf.len() || prog(x, b.pos, b.cur) > prog(x, ps1, kind) {
                        None
                    } else {
                        sp_loop(x, b.pos, b.cur, b.used, r, acc + b.code)
                    }
                },
            }
        }
    }
}

/// The construct that the token of kind `prev`, just consumed, begins.
pub open spec fn sp_prefix(x: Ctx, p: int, cur: TokenType, k: int, prev: TokenType) -> Option<
    Parsed,
>
    decreases prog(x, p, cur) + 1, 2int,
{
    if p < 0 || p > x.buf.len() {
        None
    } else {
        match prev {
            TokenType::LeftParen => sp_group(x, p, cur, k),
            TokenType::Minus | TokenType::Bang => sp_unary(x, p, cur, k, prev),
            TokenType::Number => sp_number(x, p, cur, k),
            TokenType::Nil | TokenType::True | TokenType::False => Some(
                Parsed { code: literal_code(prev), pos: p, cur, used: k },
            ),
            _ => None,
        }
    }
}

/// The rest of a binary operation whose operator, of kind `prev`, was just
/// consumed.
pub open spec fn sp_infix(x: Ctx, p: int, cur: TokenType, k: int, prev: TokenType) -> Option<
    Parsed,
>
    decreases prog(x, p, cur) + 1, 2int,
{
    if p < 0 || p > x.buf.len() || infix_precedence(prev) == Precedence::Lowest {
        None
    } else {
        sp_binary(x, p, cur, k, prev)
    }
}

/// A parenthesised expression, after its `(`.
pub open spec fn sp_group(x: Ctx, p: int, cur: TokenType, k: int) -> Option<Parsed>
    decreases prog(x, p, cur) + 1, 1int,
{
    if p < 0 || p > x.buf.len() {
        None
    } else {
        match sp_expr(x, p, cur, k) {
            None => None,
            Some(a) => {
                let (kind, ps2, err) = next_good(x.buf, a.pos);
                if a.cur != TokenType::RightParen || err {
                    None
                } else {
                    Some(Parsed { code: a.code, pos: ps2, cur: kind, used: a.used })
                }
            },
        }
    }
}

/// The operand of a prefix operator, then the operator's instruction.
pub open spec fn sp_unary(x: Ctx, p: int, cur: TokenType, k: int, op: TokenType) -> Option<
    Parsed,
>
    decreases prog(x, p, cur) + 1, 1int,
{
    if p < 0 || p > x.buf.len() {
        None
    } else {
        match sp_prec(x, p, cur, k, 8) {
            None => None,
            Some(a) => Some(Parsed { code: a.code + unary_code(op), ..a }),
        }
    }
}

/// The right operand of a binary operator, parsed one rank above it (which
/// makes the operators left-associative), then the operator's instructions.
pub open spec fn sp_binary(x: Ctx, p: int, cur: TokenType, k: int, op: TokenType) -> Option<
    Parsed,
>
    decreases prog(x, p, cur) + 1, 1int,
{
    if p < 0 || p > x.buf.len() {
        None
    } else {
        let r = if rank(infix_precedence(op)) < 10 {
            rank(infix_precedence(op)) + 1
        } else {
            10
        };
        match sp_prec(x, p, cur, k, r) {
            None => None,
            Some(a) => Some(Parsed { code: a.code + binary_code(op), ..a }),
        }
    }
}

/// `sp_compile` for the characters `buf`, the supplied number values and a
/// chunk that held `base` constants.
pub open spec fn compiled(buf: Seq<char>, numbers: Seq<u64>, base: int) -> Option<(Seq<u8>, int)> {
    sp_compile(Ctx { buf, supplied: numbers.len() as int, base })
}

/// What a compilation of the whole source emits, and how many number
/// literals it uses, when it succeeds: one expression, then the end of the
/// source, then `RETURN`.
pub open spec fn sp_compile(x: Ctx) -> Option<(Seq<u8>, int)> {
    let (kind, ps1, err) = next_good(x.buf, 0);
    if err {
        None
    } else {
        match sp_expr(x, ps1, kind, 0) {
            None => None,
            Some(a) => {
                if a.cur != TokenType::EOF || next_good(x.buf, a.pos).2 {
                    None
                } else {
                    Some((a.code.push(opcode_byte(OpCode::OpReturn)), a.used))
                }
            },
        }
    }
}

/// One scan from `p` either yields the first good token or passes over an
/// error token and leaves the rest to the next scan.
proof fn lemma_next_good_step(buf: Seq<char>, p: int, tok: Token, e: int)
    requires
        token_matches(tok, buf, skip_end(buf, p, false), e),
        0 <= p <= e <= buf.len(),
        tok.token_type != TokenType::EOF ==> e > p,
        tok.token_type == TokenType::EOF ==> e == buf.len(),
    ensures
        tok.token_type != TokenType::Error ==> next_good(buf, p) == (tok.token_type, e, false),
        tok.token_type == TokenType::Error ==> next_good(buf, p) == (
            next_good(buf, e).0,
            next_good(buf, e).1,
            true,
        ),
{
}

/// A good token lies after the cursor it is read from; at the end of the
/// source there is only `EOF`.
pub proof fn lemma_next_good_bounds(buf: Seq<char>, p: int)
    requires
        0 <= p <= buf.len(),
    ensures
        !next_good(buf, p).2 ==> p <= next_good(buf, p).1 <= buf.len(),
        !next_good(buf, p).2 && next_good(buf, p).0 != TokenType::EOF ==> p < next_good(buf, p).1,
        !next_good(buf, p).2 && next_good(buf, p).0 == TokenType::EOF ==> next_good(buf, p).1
            == buf.len(),
        next_good(buf, buf.len() as int) == (TokenType::EOF, buf.len() as int, false),
{
    lemma_token_bounds(buf, p);
    lemma_token_bounds(buf, buf.len() as int);
}

/// The source's good tokens, read one after the other from `p`, are of the
/// kinds `kinds`, with no lexical error on the way.
pub open spec fn reads_as(buf: Seq<char>, p: int, kinds: Seq<TokenType>) -> bool
    decreases kinds.len(),
{
    if kinds.len() == 0 {
        true
    } else {
        let (kind, e, err) = next_good(buf, p);
        !err && kind == kinds[0] && reads_as(buf, e, kinds.drop_first())
    }
}

/// Subtraction groups to the left: a source that reads as three number
/// literals joined by two `-` compiles to code that subtracts the second
/// literal from the first, then the third from that difference.
pub proof fn lemma_subtraction_compiles_left_first(buf: Seq<char>, numbers: Seq<u64>)
    requires
        reads_as(
            buf,
            0,
            seq![
                TokenType::Number,
                TokenType::Minus,
                TokenType::Number,
                TokenType::Minus,
                TokenType::Number,
                TokenType::EOF,
            ],
        ),
        numbers.len() >= 3,
    ensures
        compiled(buf, numbers, 0) == Some(
            (
                seq![
                    opcode_byte(OpCode::OpConstant),
                    0u8,
                    opcode_byte(OpCode::OpConstant),
                    1u8,
                    opcode_byte(OpCode::OpSubtract),
                    opcode_byte(OpCode::OpConstant),
                    2u8,
                    opcode_byte(OpCode::OpSubtract),
                    opcode_byte(OpCode::OpReturn),
                ],
                3int,
            ),
        ),
{
    let x = Ctx { buf, supplied: numbers.len() as int, base: 0 };
    let kinds = seq![
        TokenType::Number,
        TokenType::Minus,
        TokenType::Number,
        TokenType::Minus,
        TokenType::Number,
        TokenType::EOF,
    ];
    let e1 = next_good(buf, 0).1;
    lemma_next_good_bounds(buf, 0);
    assert(kinds.drop_first() =~= kinds.subrange(1, 6));
    assert(reads_as(buf, e1, kinds.subrange(1, 6)));
    let e2 = next_good(buf, e1).1;
    lemma_next_good_bounds(buf, e1);
    assert(kinds.subrange(1, 6).drop_first() =~= kinds.subrange(2, 6));
    assert(reads_as(buf, e2, kinds.subrange(2, 6)));
    let e3 = next_good(buf, e2).1;
    lemma_next_good_bounds(buf, e2);
    assert(kinds.subrange(2, 6).drop_first() =~= kinds.subrange(3, 6));
    assert(reads_as(buf, e3, kinds.subrange(3, 6)));
    let e4 = next_good(buf, e3).1;
    lemma_next_good_bounds(buf, e3);
    assert(kinds.subrange(3, 6).drop_first() =~= kinds.subrange(4, 6));
    assert(reads_as(buf, e4, kinds.subrange(4, 6)));
    let e5 = next_good(buf, e4).1;
    lemma_next_good_bounds(buf, e4);
    assert(kinds.subrange(4, 6).drop_first() =~= kinds.subrange(5, 6));
    assert(reads_as(buf, e5, kinds.subrange(5, 6)));
    let e6 = next_good(buf, e5).1;
    lemma_next_good_bounds(buf, e5);
    assert(next_good(buf, e5) == (TokenType::EOF, e6, false));
    assert(e6 == buf.len());
    let c0 = constant_instruction(0);
    let c1 = constant_instruction(1);
    let c2 = constant_instruction(2);
    let sub = binary_code(TokenType::Minus);
    // The right operand of the second `-`.
    assert(sp_number(x, e6, TokenType::EOF, 2) == Some(
        Parsed { code: c2, pos: e6, cur: TokenType::EOF, used: 3 },
    ));
    assert(sp_loop(x, e6, TokenType::EOF, 3, 7, c2) == Some(
        Parsed { code: c2, pos: e6, cur: TokenType::EOF, used: 3 },
    ));
    assert(sp_prec(x, e5, TokenType::Number, 2, 7) == Some(
        Parsed { code: c2, pos: e6, cur: TokenType::EOF, used: 3 },
    ));
    assert(sp_infix(x, e5, TokenType::Number, 2, TokenType::Minus) == Some(
        Parsed { code: c2 + sub, pos: e6, cur: TokenType::EOF, used: 3 },
    ));
    // The right operand of the first `-`.
    assert(sp_loop(x, e4, TokenType::Minus, 2, 7, c1) == Some(
        Parsed { code: c1, pos: e4, cur: TokenType::Minus, used: 2 },
    ));
    assert(sp_prec(x, e3, TokenType::Number, 1, 7) == Some(
        Parsed { code: c1, pos: e4, cur: TokenType::Minus, used: 2 },
    ));
    assert(sp_infix(x, e3, TokenType::Number, 1, TokenType::Minus) == Some(
        Parsed { code: c1 + sub, pos: e4, cur: TokenType::Minus, used: 2 },
    ));
    // The whole expression.
    let all = c0 + (c1 + sub) + (c2 + sub);
    assert(sp_loop(x, e6, TokenType::EOF, 3, 1, all) == Some(
        Parsed { code: all, pos: e6, cur: TokenType::EOF, used: 3 },
    ));
    assert(sp_loop(x, e4, TokenType::Minus, 2, 1, c0 + (c1 + sub)) == Some(
        Parsed { code: all, pos: e6, cur: TokenType::EOF, used: 3 },
    ));
    assert(sp_loop(x, e2, TokenType::Minus, 1, 1, c0) == Some(
        Parsed { code: all, pos: e6, cur: TokenType::EOF, used: 3 },
    ));
    assert(sp_prefix(x, e2, TokenType::Minus, 0, TokenType::Number) == Some(
        Parsed { code: c0, pos: e2, cur: TokenType::Minus, used: 1 },
    ));
    assert(sp_prec(x, e1, TokenType::Number, 0, 1) == Some(
        Parsed { code: all, pos: e6, cur: TokenType::EOF, used: 3 },
    ));
    assert(sp_expr(x, e1, TokenType::Number, 0) == Some(
        Parsed { code: all, pos: e6, cur: TokenType::EOF, used: 3 },
    ));
    assert(all.push(opcode_byte(OpCode::OpReturn)) =~= seq![
        opcode_byte(OpCode::OpConstant),
        0u8,
        opcode_byte(OpCode::OpConstant),
        1u8,
        opcode_byte(OpCode::OpSubtract),
        opcode_byte(OpCode::OpConstant),
        2u8,
        opcode_byte(OpCode::OpSubtract),
        opcode_byte(OpCode::OpReturn),
    ]);
}

/// Reading the first of the kinds `kinds` from `p`.
proof fn lemma_reads_as_first(buf: Seq<char>, p: int, kinds: Seq<TokenType>)
    requires
        reads_as(buf, p, kinds),
        kinds.len() > 0,
        0 <= p <= buf.len(),
    ensures
        next_good(buf, p).0 == kinds[0],
        !next_good(buf, p).2,
        p <= next_good(buf, p).1 <= buf.len(),
        kinds[0] != TokenType::EOF ==> p < next_good(buf, p).1,
        kinds[0] == TokenType::EOF ==> next_good(buf, p).1 == buf.len(),
        reads_as(buf, next_good(buf, p).1, kinds.drop_first()),
        next_good(buf, buf.len() as int) == (TokenType::EOF, buf.len() as int, false),
{
    lemma_next_good_bounds(buf, p);
}

/// Multiplication binds tighter than addition: a source that reads as
/// `number + number * number` compiles to code that multiplies the last two
/// literals before adding the first.
pub proof fn lemma_product_compiles_first(buf: Seq<char>, numbers: Seq<u64>)
    requires
        reads_as(
            buf,
            0,
            seq![
                TokenType::Number,
                TokenType::Plus,
                TokenType::Number,
                TokenType::Star,
                TokenType::Number,
                TokenType::EOF,
            ],
        ),
        numbers.len() >= 3,
    ensures
        compiled(buf, numbers, 0) == Some(
            (
                seq![
                    opcode_byte(OpCode::OpConstant),
                    0u8,
                    opcode_byte(OpCode::OpConstant),
                    1u8,
                    opcode_byte(OpCode::OpConstant),
                    2u8,
                    opcode_byte(OpCode::OpMultiply),
                    opcode_byte(OpCode::OpAdd),
                    opcode_byte(OpCode::OpReturn),
                ],
                3int,
            ),
        ),
{
    let x = Ctx { buf, supplied: numbers.len() as int, base: 0 };
    let k0 = seq![
        TokenType::Number,
        TokenType::Plus,
        TokenType::Number,
        TokenType::Star,
        TokenType::Number,
        TokenType::EOF,
    ];
    lemma_reads_as_first(buf, 0, k0);
    let e1 = next_good(buf, 0).1;
    let k1 = k0.drop_first();
    lemma_reads_as_first(buf, e1, k1);
    let e2 = next_good(buf, e1).1;
    let k2 = k1.drop_first();
    lemma_reads_as_first(buf, e2, k2);
    let e3 = next_good(buf, e2).1;
    let k3 = k2.drop_first();
    lemma_reads_as_first(buf, e3, k3);
    let e4 = next_good(buf, e3).1;
    let k4 = k3.drop_first();
    lemma_reads_as_first(buf, e4, k4);
    let e5 = next_good(buf, e4).1;
    let k5 = k4.drop_first();
    lemma_reads_as_first(buf, e5, k5);
    let e6 = next_good(buf, e5).1;
    let c0 = constant_instruction(0);
    let c1 = constant_instruction(1);
    let c2 = constant_instruction(2);
    let mul = binary_code(TokenType::Star);
    let add = binary_code(TokenType::Plus);
    let eof = TokenType::EOF;
    assert(sp_loop(x, e6, eof, 3, 8, c2) == Some(Parsed { code: c2, pos: e6, cur: eof, used: 3 }));
    assert(sp_prec(x, e5, TokenType::Number, 2, 8) == Some(
        Parsed { code: c2, pos: e6, cur: eof, used: 3 },
    ));
    assert(sp_infix(x, e5, TokenType::Number, 2, TokenType::Star) == Some(
        Parsed { code: c2 + mul, pos: e6, cur: eof, used: 3 },
    ));
    let right = c1 + (c2 + mul);
    assert(sp_loop(x, e6, eof, 3, 7, right) == Some(
        Parsed { code: right, pos: e6, cur: eof, used: 3 },
    ));
    assert(sp_loop(x, e4, TokenType::Star, 2, 7, c1) == Some(
        Parsed { code: right, pos: e6, cur: eof, used: 3 },
    ));
    assert(sp_prec(x, e3, TokenType::Number, 1, 7) == Some(
        Parsed { code: right, pos: e6, cur: eof, used: 3 },
    ));
    assert(sp_infix(x, e3, TokenType::Number, 1, TokenType::Plus) == Some(
        Parsed { code: right + add, pos: e6, cur: eof, used: 3 },
    ));
    let all = c0 + (right + add);
    assert(sp_loop(x, e6, eof, 3, 1, all) == Some(Parsed { code: all, pos: e6, cur: eof, used: 3 }));
    assert(sp_loop(x, e2, TokenType::Plus, 1, 1, c0) == Some(
        Parsed { code: all, pos: e6, cur: eof, used: 3 },
    ));
    assert(sp_prec(x, e1, TokenType::Number, 0, 1) == Some(
        Parsed { code: all, pos: e6, cur: eof, used: 3 },
    ));
    assert(all.push(opcode_byte(OpCode::OpReturn)) =~= seq![
        opcode_byte(OpCode::OpConstant),
        0u8,
        opcode_byte(OpCode::OpConstant),
        1u8,
        opcode_byte(OpCode::OpConstant),
        2u8,
        opcode_byte(OpCode::OpMultiply),
        opcode_byte(OpCode::OpAdd),
        opcode_byte(OpCode::OpReturn),
    ]);
}

/// Parentheses group first: a source that reads as
/// `( number + number ) * number` compiles to code that adds the first two
/// literals before multiplying by the third.
pub proof fn lemma_group_compiles_first(buf: Seq<char>, numbers: Seq<u64>)
    requires
        reads_as(
            buf,
            0,
            seq![
                TokenType::LeftParen,
                TokenType::Number,
                TokenType::Plus,
                TokenType::Number,
                TokenType::RightParen,
                TokenType::Star,
                TokenType::Number,
                TokenType::EOF,
            ],
        ),
        numbers.len() >= 3,
    ensures
        compiled(buf, numbers, 0) == Some(
            (
                seq![
                    opcode_byte(OpCode::OpConstant),
                    0u8,
                    opcode_byte(OpCode::OpConstant),
                    1u8,
                    opcode_byte(OpCode::OpAdd),
                    opcode_byte(OpCode::OpConstant),
                    2u8,
                    opcode_byte(OpCode::OpMultiply),
                    opcode_byte(OpCode::OpReturn),
                ],
                3int,
            ),
        ),
{
    let x = Ctx { buf, supplied: numbers.len() as int, base: 0 };
    let k0 = seq![
        TokenType::LeftParen,
        TokenType::Number,
        TokenType::Plus,
        TokenType::Number,
        TokenType::RightParen,
        TokenType::Star,
        TokenType::Number,
        TokenType::EOF,
    ];
    lemma_reads_as_first(buf, 0, k0);
    let e1 = next_good(buf, 0).1;
    let k1 = k0.drop_first();
    lemma_reads_as_first(buf, e1, k1);
    let e2 = next_good(buf, e1).1;
    let k2 = k1.drop_first();
    lemma_reads_as_first(buf, e2, k2);
    let e3 = next_good(buf, e2).1;
    let k3 = k2.drop_first();
    lemma_reads_as_first(buf, e3, k3);
    let e4 = next_good(buf, e3).1;
    let k4 = k3.drop_first();
    lemma_reads_as_first(buf, e4, k4);
    let e5 = next_good(buf, e4).1;
    let k5 = k4.drop_first();
    lemma_reads_as_first(buf, e5, k5);
    let e6 = next_good(buf, e5).1;
    let k6 = k5.drop_first();
    lemma_reads_as_first(buf, e6, k6);
    let e7 = next_good(buf, e6).1;
    let k7 = k6.drop_first();
    lemma_reads_as_first(buf, e7, k7);
    let e8 = next_good(buf, e7).1;
    let c0 = constant_instruction(0);
    let c1 = constant_instruction(1);
    let c2 = constant_instruction(2);
    let mul = binary_code(TokenType::Star);
    let add = binary_code(TokenType::Plus);
    let eof = TokenType::EOF;
    let rp = TokenType::RightParen;
    assert(sp_loop(x, e5, rp, 2, 7, c1) == Some(Parsed { code: c1, pos: e5, cur: rp, used: 2 }));
    assert(sp_prec(x, e4, TokenType::Number, 1, 7) == Some(
        Parsed { code: c1, pos: e5, cur: rp, used: 2 },
    ));
    assert(sp_infix(x, e4, TokenType::Number, 1, TokenType::Plus) == Some(
        Parsed { code: c1 + add, pos: e5, cur: rp, used: 2 },
    ));
    let sum = c0 + (c1 + add);
    assert(sp_loop(x, e5, rp, 2, 1, sum) == Some(Parsed { code: sum, pos: e5, cur: rp, used: 2 }));
    assert(sp_loop(x, e3, TokenType::Plus, 1, 1, c0) == Some(
        Parsed { code: sum, pos: e5, cur: rp, used: 2 },
    ));
    assert(sp_prec(x, e2, TokenType::Number, 0, 1) == Some(
        Parsed { code: sum, pos: e5, cur: rp, used: 2 },
    ));
    assert(sp_group(x, e2, TokenType::Number, 0) == Some(
        Parsed { code: sum, pos: e6, cur: TokenType::Star, used: 2 },
    ));
    assert(sp_loop(x, e8, eof, 3, 8, c2) == Some(Parsed { code: c2, pos: e8, cur: eof, used: 3 }));
    assert(sp_prec(x, e7, TokenType::Number, 2, 8) == Some(
        Parsed { code: c2, pos: e8, cur: eof, used: 3 },
    ));
    assert(sp_infix(x, e7, TokenType::Number, 2, TokenType::Star) == Some(
        Parsed { code: c2 + mul, pos: e8, cur: eof, used: 3 },
    ));
    let all = sum + (c2 + mul);
    assert(sp_loop(x, e8, eof, 3, 1, all) == Some(Parsed { code: all, pos: e8, cur: eof, used: 3 }));
    assert(sp_loop(x, e6, TokenType::Star, 2, 1, sum) == Some(
        Parsed { code: all, pos: e8, cur: eof, used: 3 },
    ));
    assert(sp_prec(x, e1, TokenType::LeftParen, 0, 1) == Some(
        Parsed { code: all, pos: e8, cur: eof, used: 3 },
    ));
    assert(all.push(opcode_byte(OpCode::OpReturn)) =~= seq![
        opcode_byte(OpCode::OpConstant),
        0u8,
        opcode_byte(OpCode::OpConstant),
        1u8,
        opcode_byte(OpCode::OpAdd),
        opcode_byte(OpCode::OpConstant),
        2u8,
        opcode_byte(OpCode::OpMultiply),
        opcode_byte(OpCode::OpReturn),
    ]);
}

/// The compile error for `token`, as reported.
fn diagnostic_for(token: &Token, msg: &str) -> (r: Diagnostic)
    ensures
        r.line == token.line,
        r.message@ == msg@,
        token.token_type == TokenType::EOF ==> r.location is AtEnd,
        token.token_type == TokenType::Error ==> r.location is Nowhere,
        token.token_type != TokenType::EOF && token.token_type != TokenType::Error ==> (
        r.location is AtLexeme && r.location->AtLexeme_0@ == token.the_string@),
{
    let len = token.as_str().len();
    let column = if token.column >= len {
        token.column - len
    } else {
        0
    };
    let location = if token.token_type == TokenType::EOF {
        ErrorLocation::AtEnd
    } else if token.token_type == TokenType::Error {
        ErrorLocation::Nowhere
    } else {
        ErrorLocation::AtLexeme(token.the_string.clone())
    };
    Diagnostic { line: token.line, column, location, message: msg.to_owned() }
}

/// The compiler: a Pratt parser that emits bytecode as it recognises each
/// construct.
pub struct Parser {
    current: Token,
    previous: Token,
    had_error: bool,
    panic_mode: bool,
    diagnostics: Vec<Diagnostic>,
    next_number: usize,
    reported_before: Ghost<int>,
    failed_before: Ghost<bool>,
}

impl Parser {
    /// The token being looked at.
    pub closed spec fn current_token(&self) -> Token {
        self.current
    }

    /// The token just consumed.
    pub closed spec fn previous_token(&self) -> Token {
        self.previous
    }

    pub closed spec fn error_flag(&self) -> bool {
        self.had_error
    }

    pub closed spec fn reports(&self) -> Seq<Diagnostic> {
        self.diagnostics@
    }

    /// How many number literals have been compiled.
    pub closed spec fn numbers_used(&self) -> int {
        self.next_number as int
    }

    /// Within a compilation, the first error is reported and sets panic mode;
    /// later ones are not reported.
    closed spec fn reporting(&self) -> bool {
        &&& self.panic_mode ==> self.diagnostics@.len() == self.reported_before@ + 1
        &&& !self.panic_mode ==> self.diagnostics@.len() == self.reported_before@
        &&& self.had_error == (self.failed_before@ || self.panic_mode)
    }

    /// The parser looks at `scanner`'s tokens: once it sees `EOF`, the
    /// scanner is spent.
    closed spec fn reads(&self, scanner: Scanner) -> bool {
        &&& scanner.wf()
        &&& scanner.chars().len() <= MAX_SOURCE_LEN
        &&& 0 <= scanner.cursor() <= scanner.chars().len()
        &&& self.reporting()
        &&& self.current.token_type == TokenType::EOF ==> scanner.cursor() == scanner.chars().len()
    }

    /// What is left to parse: characters not yet scanned, and the current
    /// token unless it is `EOF`.
    closed spec fn progress(&self, scanner: Scanner) -> int {
        scanner.remaining() + if self.current.token_type != TokenType::EOF {
            1int
        } else {
            0int
        }
    }

    /// The parser, scanner and chunk went from the first three states to the
    /// last three: the source stayed, nothing was taken back from the chunk,
    /// the constants added are the next number literals, and errors stay.
    closed spec fn moved(
        ps0: Parser,
        s0: Scanner,
        c0: Chunk,
        ps1: Parser,
        s1: Scanner,
        c1: Chunk,
        numbers: Seq<u64>,
    ) -> bool {
        &&& ps1.reads(s1)
        &&& s1.chars() == s0.chars()
        &&& ps1.progress(s1) <= ps0.progress(s0)
        &&& appended(c0, c1)
        &&& ps0.next_number <= ps1.next_number <= numbers.len()
        &&& c1.constants() == c0.constants() + number_values(
            numbers,
            ps0.next_number as int,
            ps1.next_number as int,
        )
        &&& Self::errors_grow(ps0, ps1)
    }

    proof fn lemma_moved_refl(p: Parser, s: Scanner, c: Chunk, numbers: Seq<u64>)
        requires
            p.reads(s),
            c.wf(),
            p.next_number <= numbers.len(),
        ensures
            Self::moved(p, s, c, p, s, c, numbers),
    {
        lemma_appended_refl(c);
        assert(c.constants() + number_values(numbers, p.next_number as int, p.next_number as int)
            =~= c.constants());
    }

    /// A step that reads tokens or reports errors but emits nothing.
    proof fn lemma_moved_no_emit(
        ps0: Parser,
        s0: Scanner,
        ps1: Parser,
        s1: Scanner,
        c: Chunk,
        numbers: Seq<u64>,
    )
        requires
            ps1.reads(s1),
            s1.chars() == s0.chars(),
            ps1.progress(s1) <= ps0.progress(s0),
            ps0.next_number == ps1.next_number,
            ps1.next_number <= numbers.len(),
            Self::errors_grow(ps0, ps1),
            c.wf(),
        ensures
            Self::moved(ps0, s0, c, ps1, s1, c, numbers),
    {
        Self::lemma_moved_refl(ps1, s1, c, numbers);
    }

    proof fn lemma_moved_trans(
        ps0: Parser,
        s0: Scanner,
        c0: Chunk,
        ps1: Parser,
        s1: Scanner,
        c1: Chunk,
        ps2: Parser,
        s2: Scanner,
        c2: Chunk,
        numbers: Seq<u64>,
    )
        requires
            Self::moved(ps0, s0, c0, ps1, s1, c1, numbers),
            Self::moved(ps1, s1, c1, ps2, s2, c2, numbers),
        ensures
            Self::moved(ps0, s0, c0, ps2, s2, c2, numbers),
    {
        lemma_appended_trans(c0, c1, c2);
        let a = ps0.next_number as int;
        let b = ps1.next_number as int;
        let c = ps2.next_number as int;
        assert(number_values(numbers, a, b) + number_values(numbers, b, c) =~= number_values(
            numbers,
            a,
            c,
        ));
        assert(c0.constants() + number_values(numbers, a, b) + number_values(numbers, b, c)
            =~= c0.constants() + number_values(numbers, a, c));
    }

    pub fn new() -> (r: Parser)
        ensures
            r.current_token().token_type == TokenType::Dummy,
            r.previous_token().token_type == TokenType::Dummy,
            !r.error_flag(),
            r.reports().len() == 0,
            r.numbers_used() == 0,
    {
        Parser {
            current: Token::create_dummy(),
            previous: Token::create_dummy(),
            had_error: false,
            panic_mode: false,
            diagnostics: Vec::new(),
            next_number: 0,
            reported_before: Ghost(0),
            failed_before: Ghost(false),
        }
    }

    pub fn had_error(&self) -> (r: bool)
        ensures
            r == self.error_flag(),
    {
        self.had_error
    }

    pub fn set_error(&mut self, value: bool)
        ensures
            final(self).error_flag() == value,
            final(self).reports() == old(self).reports(),
            final(self).current_token() == old(self).current_token(),
            final(self).previous_token() == old(self).previous_token(),
            final(self).numbers_used() == old(self).numbers_used(),
    {
        self.had_error = value;
    }

    /// The compilation context of a state.
    closed spec fn ctx(p: Parser, c: Chunk, s: Scanner, numbers: Seq<u64>) -> Ctx {
        Ctx {
            buf: s.chars(),
            supplied: numbers.len() as int,
            base: c.constants().len() - p.next_number,
        }
    }

    /// From (`ps0`, `c0`) the parser did what `r` describes: where `r` is a
    /// parse, no new error, the code it gives appended, and the scanner and
    /// current token where it says; where it is none, an error.
    closed spec fn follows(
        r: Option<Parsed>,
        ps0: Parser,
        c0: Chunk,
        ps1: Parser,
        s1: Scanner,
        c1: Chunk,
    ) -> bool {
        match r {
            Some(a) => {
                &&& ps1.had_error == ps0.had_error
                &&& c1.code_view() == c0.code_view() + a.code
                &&& s1.cursor() == a.pos
                &&& ps1.current.token_type == a.cur
                &&& ps1.next_number == a.used
            },
            None => ps1.had_error,
        }
    }

    proof fn lemma_ctx_kept(
        ps0: Parser,
        s0: Scanner,
        c0: Chunk,
        ps1: Parser,
        s1: Scanner,
        c1: Chunk,
        numbers: Seq<u64>,
    )
        requires
            Self::moved(ps0, s0, c0, ps1, s1, c1, numbers),
        ensures
            Self::ctx(ps1, c1, s1, numbers) == Self::ctx(ps0, c0, s0, numbers),
    {
    }

    /// Errors only accumulate from `ps0` to `ps1`.
    closed spec fn errors_grow(ps0: Parser, ps1: Parser) -> bool {
        &&& ps1.reported_before == ps0.reported_before
        &&& ps1.failed_before == ps0.failed_before
        &&& ps0.had_error ==> ps1.had_error
        &&& ps0.diagnostics@.len() <= ps1.diagnostics@.len()
        &&& ps0.diagnostics@.len() < ps1.diagnostics@.len() ==> ps1.had_error
    }

    /// Compiles `source` into `chunk`: one expression, then the end of the
    /// source, then `RETURN`. The `k`-th number literal of the source gets the
    /// value whose bit pattern is `numbers[k]`; a literal without one is an
    /// invalid constant. Errors are collected in `diagnostics`.
    pub fn compile(&mut self, source: &str, numbers: &Vec<u64>, chunk: &mut Chunk) -> (r: Result<
        (),
        InterpretError,
    >)
        requires
            source@.len() <= MAX_SOURCE_LEN,
            old(chunk).wf(),
        ensures
            final(chunk).wf(),
            r is Ok <==> !final(self).error_flag(),
            r is Err ==> r == Err::<(), InterpretError>(InterpretError::CompileError),
            old(self).error_flag() ==> final(self).error_flag(),
            final(self).reports().len() <= old(self).reports().len() + 1,
            final(self).reports().len() >= old(self).reports().len(),
            !old(self).error_flag() ==> (r is Err <==> final(self).reports().len() == old(
                self,
            ).reports().len() + 1),
            runnable(
                final(chunk).code_view(),
                final(chunk).constants().len() as int,
                old(chunk).code_view().len() as int,
            ),
            final(chunk).code_view().subrange(0, old(chunk).code_view().len() as int) == old(
                chunk,
            ).code_view(),
            0 <= final(self).numbers_used() <= numbers@.len(),
            final(chunk).constants() == old(chunk).constants() + number_values(
                numbers@,
                0,
                final(self).numbers_used(),
            ),
            !old(self).error_flag() ==> (r is Ok <==> compiled(
                source@,
                numbers@,
                old(chunk).constants().len() as int,
            ) is Some),
            r is Ok ==> ({
                let c = compiled(source@, numbers@, old(chunk).constants().len() as int);
                let (code, used) = c->0;
                &&& c is Some
                &&& final(chunk).code_view() == old(chunk).code_view() + code
                &&& final(self).numbers_used() == used
            }),
    {
        let mut scanner = Scanner::init(source);
        self.next_number = 0;
        self.panic_mode = false;
        self.reported_before = Ghost(self.diagnostics@.len() as int);
        self.failed_before = Ghost(self.had_error);
        self.current = Token::create_dummy();
        let ghost ps0 = *self;
        let ghost c0 = *chunk;
        self.advance(&mut scanner);
        let ghost ps1 = *self;
        let ghost s1 = scanner;
        let ghost x = Ctx {
            buf: source@,
            supplied: numbers@.len() as int,
            base: c0.constants().len() as int,
        };
        assert(Self::ctx(ps1, c0, s1, numbers@) == x);
        proof {
            Self::lemma_moved_refl(ps1, s1, c0, numbers@);
        }
        self.expression(chunk, &mut scanner, numbers);
        let ghost ps2 = *self;
        let ghost s2 = scanner;
        let ghost c2 = *chunk;
        self.consume(&mut scanner, TokenType::EOF, "Expect end of expression");
        proof {
            Self::lemma_moved_no_emit(ps2, s2, *self, scanner, c2, numbers@);
            Self::lemma_moved_trans(ps1, s1, c0, ps2, s2, c2, *self, scanner, *chunk, numbers@);
        }
        let ghost c3 = *chunk;
        self.end_compiler(chunk);
        proof {
            let e = sp_expr(x, s1.cursor(), ps1.current.token_type, 0);
            if e is Some {
                assert(chunk.code_view() =~= c0.code_view() + e->0.code.push(
                    opcode_byte(OpCode::OpReturn),
                ));
            }
            lemma_runnable_after_return(c0, c3, *chunk);
            assert(chunk.code_view().subrange(0, c0.code_view().len() as int) =~= c3.code_view().subrange(0, c0.code_view().len() as int));
        }
        if self.had_error {
            Err(InterpretError::CompileError)
        } else {
            Ok(())
        }
    }

    fn expression(&mut self, chunk: &mut Chunk, scanner: &mut Scanner, numbers: &Vec<u64>)
        requires
            old(self).reads(*old(scanner)),
            old(chunk).wf(),
            old(self).next_number <= numbers@.len(),
        ensures
            Self::follows(
                sp_expr(Self::ctx(*old(self), *old(chunk), *old(scanner), numbers@), old(scanner).cursor(), old(self).current.token_type, old(self).next_number as int),
                *old(self),
                *old(chunk),
                *final(self),
                *final(scanner),
                *final(chunk),
            ),
            Self::moved(
                *old(self),
                *old(scanner),
                *old(chunk),
                *final(self),
                *final(scanner),
                *final(chunk),
                numbers@,
            ),
        decreases old(self).progress(*old(scanner)), 4int,
    {
        self.parse_precedence(chunk, scanner, numbers, Precedence::Assignment);
    }

    fn number(&mut self, chunk: &mut Chunk, numbers: &Vec<u64>)
        requires
            old(self).reporting(),
            old(chunk).wf(),
            old(self).next_number <= numbers@.len(),
        ensures
            final(self).reporting(),
            ({
                let k = old(self).next_number as int;
                let base = old(chunk).constants().len() - k;
                if k < numbers@.len() && base + k < MAX_CONSTANTS {
                    &&& final(self).had_error == old(self).had_error
                    &&& final(chunk).code_view() == old(chunk).code_view() + constant_instruction(
                        base + k,
                    )
                    &&& final(self).next_number == k + 1
                } else {
                    final(self).had_error
                }
            }),
            final(self).next_number <= numbers@.len(),
            final(self).current == old(self).current,
            final(self).previous == old(self).previous,
            Self::errors_grow(*old(self), *final(self)),
            appended(*old(chunk), *final(chunk)),
            old(self).next_number <= final(self).next_number,
            final(chunk).constants() == old(chunk).constants() + number_values(
                numbers@,
                old(self).next_number as int,
                final(self).next_number as int,
            ),
    {
        if self.next_number >= numbers.len() {
            self.error("Invalid float constant.");
            proof {
                lemma_appended_refl(*chunk);
                assert(chunk.constants() =~= old(chunk).constants() + number_values(
                    numbers@,
                    self.next_number as int,
                    self.next_number as int,
                ));
            }
        } else if chunk.constants_len() >= MAX_CONSTANTS {
            self.error("Too many constants in one chunk.");
            proof {
                lemma_appended_refl(*chunk);
                assert(chunk.constants() =~= old(chunk).constants() + number_values(
                    numbers@,
                    self.next_number as int,
                    self.next_number as int,
                ));
            }
        } else {
            let bits = numbers[self.next_number];
            self.emit_constant(chunk, bits);
            self.next_number = self.next_number + 1;
            assert(chunk.constants() =~= old(chunk).constants() + number_values(
                numbers@,
                old(self).next_number as int,
                self.next_number as int,
            ));
        }
    }

    fn grouping(&mut self, chunk: &mut Chunk, scanner: &mut Scanner, numbers: &Vec<u64>)
        requires
            old(self).reads(*old(scanner)),
            old(chunk).wf(),
            old(self).next_number <= numbers@.len(),
        ensures
            Self::follows(
                sp_group(Self::ctx(*old(self), *old(chunk), *old(scanner), numbers@), old(scanner).cursor(), old(self).current.token_type, old(self).next_number as int),
                *old(self),
                *old(chunk),
                *final(self),
                *final(scanner),
                *final(chunk),
            ),
            Self::moved(
                *old(self),
                *old(scanner),
                *old(chunk),
                *final(self),
                *final(scanner),
                *final(chunk),
                numbers@,
            ),
        decreases old(self).progress(*old(scanner)) + 1, 1int,
    {
        self.expression(chunk, scanner, numbers);
        let ghost ps1 = *self;
        let ghost s1 = *scanner;
        let ghost c1 = *chunk;
        self.consume(scanner, TokenType::RightParen, "Expect ')' after expression.");
        proof {
            Self::lemma_ctx_kept(*old(self), *old(scanner), *old(chunk), ps1, s1, c1, numbers@);
            Self::lemma_moved_no_emit(ps1, s1, *self, *scanner, c1, numbers@);
            Self::lemma_moved_trans(
                *old(self),
                *old(scanner),
                *old(chunk),
                ps1,
                s1,
                c1,
                *self,
                *scanner,
                *chunk,
                numbers@,
            );
        }
    }

    fn unary(&mut self, chunk: &mut Chunk, scanner: &mut Scanner, numbers: &Vec<u64>)
        requires
            old(self).reads(*old(scanner)),
            old(chunk).wf(),
            old(self).next_number <= numbers@.len(),
            old(self).previous.token_type == TokenType::Minus || old(self).previous.token_type
                == TokenType::Bang,
        ensures
            Self::follows(
                sp_unary(Self::ctx(*old(self), *old(chunk), *old(scanner), numbers@), old(scanner).cursor(), old(self).current.token_type, old(self).next_number as int, old(self).previous.token_type),
                *old(self),
                *old(chunk),
                *final(self),
                *final(scanner),
                *final(chunk),
            ),
            Self::moved(
                *old(self),
                *old(scanner),
                *old(chunk),
                *final(self),
                *final(scanner),
                *final(chunk),
                numbers@,
            ),
        decreases old(self).progress(*old(scanner)) + 1, 1int,
    {
        let op_type = self.previous.ttype();
        let ghost x = Self::ctx(*old(self), *old(chunk), *old(scanner), numbers@);
        let ghost inner = sp_prec(x, old(scanner).cursor(), old(self).current.token_type, old(self).next_number as int, 8);
        self.parse_precedence(chunk, scanner, numbers, Precedence::Unary);
        let ghost mid = chunk.code_view();
        let ghost ps1 = *self;
        let ghost s1 = *scanner;
        let ghost c1 = *chunk;
        match op_type {
            TokenType::Minus => self.emit_byte(chunk, OpCode::OpNegate.to_byte()),
            TokenType::Bang => self.emit_byte(chunk, OpCode::OpNot.to_byte()),
            _ => {
                proof {
                    lemma_appended_refl(*chunk);
                }
            },
        }
        proof {
            assert(chunk.code_view() =~= mid + unary_code(op_type));
            if inner is Some {
                assert(chunk.code_view() =~= old(chunk).code_view() + (inner->0.code + unary_code(op_type)));
            }
            Self::lemma_moved_refl(*self, *scanner, c1, numbers@);
            Self::lemma_moved_trans(
                *old(self),
                *old(scanner),
                *old(chunk),
                ps1,
                s1,
                c1,
                *self,
                *scanner,
                *chunk,
                numbers@,
            );
        }
    }

    fn binary(&mut self, scanner: &mut Scanner, chunk: &mut Chunk, numbers: &Vec<u64>)
        requires
            old(self).reads(*old(scanner)),
            old(chunk).wf(),
            old(self).next_number <= numbers@.len(),
            infix_precedence(old(self).previous.token_type) != Precedence::Lowest,
        ensures
            Self::follows(
                sp_binary(Self::ctx(*old(self), *old(chunk), *old(scanner), numbers@), old(scanner).cursor(), old(self).current.token_type, old(self).next_number as int, old(self).previous.token_type),
                *old(self),
                *old(chunk),
                *final(self),
                *final(scanner),
                *final(chunk),
            ),
            Self::moved(
                *old(self),
                *old(scanner),
                *old(chunk),
                *final(self),
                *final(scanner),
                *final(chunk),
                numbers@,
            ),
        decreases old(self).progress(*old(scanner)) + 1, 1int,
    {
        let op_type = self.previous.ttype();
        let prec = self.get_rule_precedence(op_type);
        let ghost x = Self::ctx(*old(self), *old(chunk), *old(scanner), numbers@);
        let higher = prec.higher();
        let ghost inner = sp_prec(x, old(scanner).cursor(), old(self).current.token_type, old(self).next_number as int, rank(higher));
        self.parse_precedence(chunk, scanner, numbers, higher);
        let ghost mid = chunk.code_view();
        let ghost ps1 = *self;
        let ghost s1 = *scanner;
        let ghost c1 = *chunk;
        match op_type {
            TokenType::Plus => self.emit_byte(chunk, OpCode::OpAdd.to_byte()),
            TokenType::Minus => self.emit_byte(chunk, OpCode::OpSubtract.to_byte()),
            TokenType::Star => self.emit_byte(chunk, OpCode::OpMultiply.to_byte()),
            TokenType::Slash => self.emit_byte(chunk, OpCode::OpDivide.to_byte()),
            TokenType::BangEqual => self.emit_bytes(
                chunk,
                OpCode::OpEqual.to_byte(),
                OpCode::OpNot.to_byte(),
            ),
            TokenType::EqualEqual => self.emit_byte(chunk, OpCode::OpEqual.to_byte()),
            TokenType::Greater => self.emit_byte(chunk, OpCode::OpGreater.to_byte()),
            TokenType::GreateEqual => self.emit_bytes(
                chunk,
                OpCode::OpLess.to_byte(),
                OpCode::OpNot.to_byte(),
            ),
            TokenType::Less => self.emit_byte(chunk, OpCode::OpLess.to_byte()),
            TokenType::LessEqual => self.emit_bytes(
                chunk,
                OpCode::OpGreater.to_byte(),
                OpCode::OpNot.to_byte(),
            ),
            _ => {
                proof {
                    lemma_appended_refl(*chunk);
                }
            },
        }
        proof {
            assert(chunk.code_view() =~= mid + binary_code(op_type));
            if inner is Some {
                assert(chunk.code_view() =~= old(chunk).code_view() + (inner->0.code + binary_code(op_type)));
            }
            Self::lemma_moved_refl(*self, *scanner, c1, numbers@);
            Self::lemma_moved_trans(
                *old(self),
                *old(scanner),
                *old(chunk),
                ps1,
                s1,
                c1,
                *self,
                *scanner,
                *chunk,
                numbers@,
            );
        }
    }

    fn get_rule_precedence(&self, ttype: TokenType) -> (r: Precedence)
        ensures
            r == infix_precedence(ttype),
    {
        match ttype {
            TokenType::Minus => Precedence::Term,
            TokenType::Plus => Precedence::Term,
            TokenType::Slash => Precedence::Factor,
            TokenType::Star => Precedence::Factor,
            TokenType::BangEqual => Precedence::Equality,
            TokenType::EqualEqual => Precedence::Equality,
            TokenType::Greater => Precedence::Comparison,
            TokenType::GreateEqual => Precedence::Comparison,
            TokenType::Less => Precedence::Comparison,
            TokenType::LessEqual => Precedence::Comparison,
            _ => Precedence::Lowest,
        }
    }

    /// Parses an expression whose operators bind at least as strongly as
    /// `precedence`.
    fn parse_precedence(
        &mut self,
        chunk: &mut Chunk,
        scanner: &mut Scanner,
        numbers: &Vec<u64>,
        precedence: Precedence,
    )
        requires
            old(self).reads(*old(scanner)),
            old(chunk).wf(),
            old(self).next_number <= numbers@.len(),
            rank(precedence) >= 1,
        ensures
            Self::follows(
                sp_prec(Self::ctx(*old(self), *old(chunk), *old(scanner), numbers@), old(scanner).cursor(), old(self).current.token_type, old(self).next_number as int, rank(precedence)),
                *old(self),
                *old(chunk),
                *final(self),
                *final(scanner),
                *final(chunk),
            ),
            Self::moved(
                *old(self),
                *old(scanner),
                *old(chunk),
                *final(self),
                *final(scanner),
                *final(chunk),
                numbers@,
            ),
        decreases old(self).progress(*old(scanner)), 3int,
    {
        let ghost ps0 = *self;
        let ghost s0 = *scanner;
        let ghost c0 = *chunk;
        let ghost x = Self::ctx(ps0, c0, s0, numbers@);
        let ghost r = rank(precedence);
        let ghost len0 = c0.code_view().len() as int;
        let ghost target = sp_prec(x, s0.cursor(), ps0.current.token_type, ps0.next_number as int, r);
        self.advance(scanner);
        proof {
            Self::lemma_moved_no_emit(ps0, s0, *self, *scanner, c0, numbers@);
        }
        let kind = self.previous.ttype();
        let ghost ps1 = *self;
        let ghost s1 = *scanner;
        let mut found = false;
        if kind != TokenType::EOF {
            found = self.call_rule_prefix(chunk, scanner, numbers, kind);
        } else {
            proof {
                Self::lemma_moved_refl(ps1, s1, c0, numbers@);
            }
        }
        proof {
            Self::lemma_moved_trans(ps0, s0, c0, ps1, s1, c0, *self, *scanner, *chunk, numbers@);
        }
        if !found {
            let ghost ps2 = *self;
            self.error("Expect expression.");
            proof {
                Self::lemma_moved_no_emit(ps2, *scanner, *self, *scanner, *chunk, numbers@);
                Self::lemma_moved_trans(
                    ps0,
                    s0,
                    c0,
                    ps2,
                    *scanner,
                    *chunk,
                    *self,
                    *scanner,
                    *chunk,
                    numbers@,
                );
            }
        }
        proof {
            Self::lemma_ctx_kept(ps0, s0, c0, *self, *scanner, *chunk, numbers@);
            if !self.had_error || target is Some {
                if found {
                    let a = sp_prefix(x, s1.cursor(), ps1.current.token_type, ps1.next_number as int, kind);
                    if a is Some {
                        assert(chunk.code_view() =~= c0.code_view() + a->0.code);
                        assert(chunk.code_view().subrange(len0, chunk.code_view().len() as int)
                            =~= a->0.code);
                    }
                }
            }
        }
        loop
            invariant
                rank(precedence) >= 1,
                r == rank(precedence),
                ps0 == *old(self),
                s0 == *old(scanner),
                c0 == *old(chunk),
                x == Self::ctx(ps0, c0, s0, numbers@),
                len0 == c0.code_view().len(),
                target == sp_prec(x, s0.cursor(), ps0.current.token_type, ps0.next_number as int, r),
                Self::moved(ps0, s0, c0, *self, *scanner, *chunk, numbers@),
                (self.had_error && target is None) || (target == sp_loop(
                    x,
                    scanner.cursor(),
                    self.current.token_type,
                    self.next_number as int,
                    r,
                    chunk.code_view().subrange(len0, chunk.code_view().len() as int),
                ) && self.had_error == ps0.had_error),
            ensures
                Self::moved(ps0, s0, c0, *self, *scanner, *chunk, numbers@),
                (self.had_error && target is None) || (target == sp_loop(
                    x,
                    scanner.cursor(),
                    self.current.token_type,
                    self.next_number as int,
                    r,
                    chunk.code_view().subrange(len0, chunk.code_view().len() as int),
                ) && self.had_error == ps0.had_error && rank(infix_precedence(self.current.token_type)) < r),
            decreases self.progress(*scanner),
        {
            if precedence.rank() > self.get_rule_precedence(self.current.ttype()).rank() {
                break ;
            }
            let ghost ps2 = *self;
            let ghost s2 = *scanner;
            let ghost c2 = *chunk;
            let ghost acc = c2.code_view().subrange(len0, c2.code_view().len() as int);
            self.advance(scanner);
            proof {
                Self::lemma_moved_no_emit(ps2, s2, *self, *scanner, c2, numbers@);
                Self::lemma_moved_trans(ps0, s0, c0, ps2, s2, c2, *self, *scanner, c2, numbers@);
            }
            let ghost ps3 = *self;
            let ghost s3 = *scanner;
            let kind = self.previous.ttype();
            let found_infix = self.call_rule_infix(chunk, scanner, numbers, kind);
            proof {
                Self::lemma_moved_trans(ps0, s0, c0, ps3, s3, c2, *self, *scanner, *chunk, numbers@);
                Self::lemma_ctx_kept(ps0, s0, c0, ps3, s3, c2, numbers@);
                Self::lemma_ctx_kept(ps0, s0, c0, *self, *scanner, *chunk, numbers@);
                let b = sp_infix(x, s3.cursor(), ps3.current.token_type, ps3.next_number as int, kind);
                if b is Some {
                    assert(chunk.code_view().subrange(len0, chunk.code_view().len() as int) =~= acc
                        + b->0.code);
                }
            }
            if !found_infix {
                let ghost ps4 = *self;
                self.error("Strange: Missing infix rule!");
                proof {
                    Self::lemma_moved_no_emit(ps4, *scanner, *self, *scanner, *chunk, numbers@);
                    Self::lemma_moved_trans(
                        ps0,
                        s0,
                        c0,
                        ps4,
                        *scanner,
                        *chunk,
                        *self,
                        *scanner,
                        *chunk,
                        numbers@,
                    );
                }
                break ;
            }
        }
        proof {
            if !(self.had_error && target is None) {
                assert(target == Some(Parsed {
                    code: chunk.code_view().subrange(len0, chunk.code_view().len() as int),
                    pos: scanner.cursor(),
                    cur: self.current.token_type,
                    used: self.next_number as int,
                }));
                assert(chunk.code_view() =~= c0.code_view() + chunk.code_view().subrange(
                    len0,
                    chunk.code_view().len() as int,
                ));
            }
        }
    }

    fn call_rule_infix(
        &mut self,
        chunk: &mut Chunk,
        scanner: &mut Scanner,
        numbers: &Vec<u64>,
        ttype: TokenType,
    ) -> (r: bool)
        requires
            old(self).reads(*old(scanner)),
            old(chunk).wf(),
            old(self).next_number <= numbers@.len(),
            ttype == old(self).previous.token_type,
        ensures
            Self::moved(
                *old(self),
                *old(scanner),
                *old(chunk),
                *final(self),
                *final(scanner),
                *final(chunk),
                numbers@,
            ),
            r == (infix_precedence(ttype) != Precedence::Lowest),
            r ==> Self::follows(
                sp_infix(Self::ctx(*old(self), *old(chunk), *old(scanner), numbers@), old(scanner).cursor(), old(self).current.token_type, old(self).next_number as int, ttype),
                *old(self),
                *old(chunk),
                *final(self),
                *final(scanner),
                *final(chunk),
            ),
        decreases old(self).progress(*old(scanner)) + 1, 2int,
    {
        match ttype {
            TokenType::Minus | TokenType::Plus | TokenType::Slash | TokenType::Star
            | TokenType::BangEqual | TokenType::EqualEqual | TokenType::Greater
            | TokenType::GreateEqual | TokenType::Less | TokenType::LessEqual => {
                self.binary(scanner, chunk, numbers);
                true
            },
            _ => {
                proof {
                    Self::lemma_moved_refl(*self, *scanner, *chunk, numbers@);
                }
                false
            },
        }
    }

    fn call_rule_prefix(
        &mut self,
        chunk: &mut Chunk,
        scanner: &mut Scanner,
        numbers: &Vec<u64>,
        ttype: TokenType,
    ) -> (r: bool)
        requires
            old(self).reads(*old(scanner)),
            old(chunk).wf(),
            old(self).next_number <= numbers@.len(),
            ttype == old(self).previous.token_type,
        ensures
            Self::moved(
                *old(self),
                *old(scanner),
                *old(chunk),
                *final(self),
                *final(scanner),
                *final(chunk),
                numbers@,
            ),
            r == has_prefix_rule(ttype),
            r ==> Self::follows(
                sp_prefix(Self::ctx(*old(self), *old(chunk), *old(scanner), numbers@), old(scanner).cursor(), old(self).current.token_type, old(self).next_number as int, ttype),
                *old(self),
                *old(chunk),
                *final(self),
                *final(scanner),
                *final(chunk),
            ),
        decreases old(self).progress(*old(scanner)) + 1, 2int,
    {
        match ttype {
            TokenType::LeftParen => self.grouping(chunk, scanner, numbers),
            TokenType::Minus | TokenType::Bang => self.unary(chunk, scanner, numbers),
            TokenType::Number => self.number(chunk, numbers),
            TokenType::Nil | TokenType::True | TokenType::False => self.literal(chunk),
            _ => {
                proof {
                    Self::lemma_moved_refl(*self, *scanner, *chunk, numbers@);
                }
                return false;
            },
        }
        true
    }

    fn literal(&self, chunk: &mut Chunk)
        requires
            old(chunk).wf(),
            self.previous.token_type == TokenType::Nil || self.previous.token_type
                == TokenType::True || self.previous.token_type == TokenType::False,
        ensures
            final(chunk).code_view() == old(chunk).code_view() + literal_code(
                self.previous.token_type,
            ),
            appended(*old(chunk), *final(chunk)),
            final(chunk).constants() == old(chunk).constants(),
    {
        match self.previous.ttype() {
            TokenType::False => self.emit_byte(chunk, OpCode::OpFalse.to_byte()),
            TokenType::True => self.emit_byte(chunk, OpCode::OpTrue.to_byte()),
            TokenType::Nil => self.emit_byte(chunk, OpCode::OpNil.to_byte()),
            _ => {
                proof {
                    lemma_appended_refl(*chunk);
                }
            },
        }
    }

    fn emit_constant(&self, chunk: &mut Chunk, bits: u64)
        requires
            old(chunk).wf(),
            old(chunk).constants().len() < MAX_CONSTANTS,
        ensures
            appended(*old(chunk), *final(chunk)),
            final(chunk).constants() == old(chunk).constants().push(Value::Number(bits)),
            final(chunk).code_view() == old(chunk).code_view() + constant_instruction(
                old(chunk).constants().len() as int,
            ),
    {
        let value = Value::create_number(bits);
        chunk.write_const(value, self.previous.line());
        proof {
            lemma_appended_constant(*old(chunk), *chunk, value);
        }
    }

    fn end_compiler(&self, chunk: &mut Chunk)
        requires
            old(chunk).wf(),
        ensures
            final(chunk).wf(),
            final(chunk).code_view() == old(chunk).code_view().push(
                opcode_byte(OpCode::OpReturn),
            ),
            final(chunk).constants() == old(chunk).constants(),
    {
        self.emit_return(chunk);
    }

    /// Emits one instruction without operands.
    fn emit_byte(&self, chunk: &mut Chunk, byte: Byte)
        requires
            old(chunk).wf(),
            byte@ != opcode_byte(OpCode::OpConstant),
            byte@ != opcode_byte(OpCode::OpConstantLong),
        ensures
            final(chunk).wf(),
            appended(*old(chunk), *final(chunk)),
            final(chunk).code_view() == old(chunk).code_view().push(byte@),
            final(chunk).constants() == old(chunk).constants(),
    {
        chunk.write_code(byte, self.previous.line());
        proof {
            lemma_appended_simple(*old(chunk), *chunk, byte@);
        }
    }

    /// Emits two instructions without operands.
    fn emit_bytes(&self, chunk: &mut Chunk, byte1: Byte, byte2: Byte)
        requires
            old(chunk).wf(),
            byte1@ != opcode_byte(OpCode::OpConstant),
            byte1@ != opcode_byte(OpCode::OpConstantLong),
            byte2@ != opcode_byte(OpCode::OpConstant),
            byte2@ != opcode_byte(OpCode::OpConstantLong),
        ensures
            appended(*old(chunk), *final(chunk)),
            final(chunk).constants() == old(chunk).constants(),
            final(chunk).code_view() == old(chunk).code_view().push(byte1@).push(byte2@),
    {
        self.emit_byte(chunk, byte1);
        let ghost c1 = *chunk;
        self.emit_byte(chunk, byte2);
        proof {
            lemma_appended_trans(*old(chunk), c1, *chunk);
        }
    }

    fn emit_return(&self, chunk: &mut Chunk)
        requires
            old(chunk).wf(),
        ensures
            final(chunk).wf(),
            final(chunk).code_view() == old(chunk).code_view().push(
                opcode_byte(OpCode::OpReturn),
            ),
            final(chunk).constants() == old(chunk).constants(),
    {
        self.emit_byte(chunk, OpCode::OpReturn.to_byte());
    }

    /// Consumes the current token if it is of kind `ttype`, else reports
    /// `msg` at it.
    fn consume(&mut self, scanner: &mut Scanner, ttype: TokenType, msg: &str)
        requires
            old(self).reads(*old(scanner)),
        ensures
            final(self).reads(*final(scanner)),
            final(scanner).chars() == old(scanner).chars(),
            final(self).progress(*final(scanner)) <= old(self).progress(*old(scanner)),
            final(self).next_number == old(self).next_number,
            Self::errors_grow(*old(self), *final(self)),
            old(self).current.token_type == ttype ==> ({
                let ng = next_good(old(scanner).chars(), old(scanner).cursor());
                &&& final(self).current.token_type == ng.0
                &&& final(scanner).cursor() == ng.1
                &&& ng.2 ==> final(self).had_error
                &&& !ng.2 ==> final(self).had_error == old(self).had_error
            }),
            old(self).current.token_type != ttype ==> final(self).had_error,
    {
        if self.current.ttype() == ttype {
            self.advance(scanner);
        } else {
            self.error_at_current(msg);
        }
    }

    /// Moves to the next token, reporting each error token on the way.
    fn advance(&mut self, scanner: &mut Scanner)
        requires
            old(scanner).wf(),
            old(scanner).chars().len() <= MAX_SOURCE_LEN,
            0 <= old(scanner).cursor() <= old(scanner).chars().len(),
            old(self).current.token_type == TokenType::EOF ==> old(scanner).cursor() == old(
                scanner,
            ).chars().len(),
            old(self).reporting(),
        ensures
            final(self).reads(*final(scanner)),
            ({
                let ng = next_good(old(scanner).chars(), old(scanner).cursor());
                &&& final(self).current.token_type == ng.0
                &&& final(scanner).cursor() == ng.1
                &&& ng.2 ==> final(self).had_error
                &&& !ng.2 ==> final(self).had_error == old(self).had_error
            }),
            final(scanner).chars() == old(scanner).chars(),
            final(self).previous == old(self).current,
            final(self).current.token_type != TokenType::Error,
            final(self).progress(*final(scanner)) <= old(self).progress(*old(scanner)),
            old(self).current.token_type != TokenType::EOF ==> final(self).progress(
                *final(scanner),
            ) < old(self).progress(*old(scanner)),
            final(self).next_number == old(self).next_number,
            Self::errors_grow(*old(self), *final(self)),
    {
        let ghost buf = scanner.chars();
        let ghost ng0 = next_good(buf, scanner.cursor());
        let ghost ps0 = scanner.cursor();
        let mut tok = scanner.scan_token();
        proof {
            lemma_next_good_step(buf, ps0, tok, scanner.cursor());
        }
        let ghost mut saw = false;
        while tok.ttype() == TokenType::Error
            invariant
                buf == scanner.chars(),
                tok.token_type == TokenType::Error ==> ng0 == (
                    next_good(buf, scanner.cursor()).0,
                    next_good(buf, scanner.cursor()).1,
                    true,
                ),
                tok.token_type != TokenType::Error ==> ng0 == (tok.token_type, scanner.cursor(), saw),
                saw ==> self.had_error,
                !saw ==> self.had_error == old(self).had_error,
                self.reporting(),
                scanner.wf(),
                scanner.chars() == old(scanner).chars(),
                scanner.chars().len() <= MAX_SOURCE_LEN,
                0 <= scanner.cursor() <= scanner.chars().len(),
                tok.token_type != TokenType::EOF ==> scanner.cursor() > old(scanner).cursor(),
                tok.token_type == TokenType::EOF ==> scanner.cursor() == scanner.chars().len(),
                old(self).current.token_type == TokenType::EOF ==> scanner.cursor()
                    == scanner.chars().len(),
                self.current == old(self).current,
                self.previous == old(self).previous,
                self.next_number == old(self).next_number,
                Self::errors_grow(*old(self), *self),
            decreases scanner.remaining() + if tok.token_type == TokenType::Error {
                1int
            } else {
                0int
            },
        {
            let d = diagnostic_for(&tok, tok.as_str());
            self.error_at(d);
            let ghost before = scanner.cursor();
            tok = scanner.scan_token();
            proof {
                lemma_next_good_step(buf, before, tok, scanner.cursor());
                saw = true;
            }
        }
        std::mem::swap(&mut self.previous, &mut self.current);
        self.current = tok;
    }

    fn error_at_current(&mut self, msg: &str)
        requires
            old(self).reporting(),
        ensures
            final(self).reporting(),
            final(self).had_error,
            final(self).panic_mode,
            final(self).current == old(self).current,
            final(self).previous == old(self).previous,
            final(self).next_number == old(self).next_number,
            Self::errors_grow(*old(self), *final(self)),
    {
        let d = diagnostic_for(&self.current, msg);
        self.error_at(d);
    }

    fn error(&mut self, msg: &str)
        requires
            old(self).reporting(),
        ensures
            final(self).reporting(),
            final(self).had_error,
            final(self).panic_mode,
            final(self).current == old(self).current,
            final(self).previous == old(self).previous,
            final(self).next_number == old(self).next_number,
            Self::errors_grow(*old(self), *final(self)),
    {
        let d = diagnostic_for(&self.previous, msg);
        self.error_at(d);
    }

    /// Records a compile error, unless one is already being reported.
    fn error_at(&mut self, diagnostic: Diagnostic)
        requires
            old(self).reporting(),
        ensures
            final(self).reporting(),
            final(self).had_error,
            final(self).current == old(self).current,
            final(self).previous == old(self).previous,
            final(self).next_number == old(self).next_number,
            Self::errors_grow(*old(self), *final(self)),
            final(self).panic_mode,
            !old(self).panic_mode ==> final(self).had_error && final(self).diagnostics@
                == old(self).diagnostics@.push(diagnostic),
            old(self).panic_mode ==> final(self).had_error == old(self).had_error
                && final(self).diagnostics@ == old(self).diagnostics@,
    {
        if self.panic_mode {
            return ;
        }
        self.panic_mode = true;
        self.diagnostics.push(diagnostic);
        self.had_error = true;
    }

    /// The compile errors reported so far, in order. Once one is reported,
    /// later ones are suppressed, so there is at most one per compilation.
    pub fn diagnostics(&self) -> (r: &Vec<Diagnostic>)
        ensures
            r@ == self.reports(),
    {
        &self.diagnostics
    }
}

} // verus!
