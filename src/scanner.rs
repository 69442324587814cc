use vstd::prelude::*;
use vstd::std_specs::iter::IteratorSpec;

verus! {

/// The token kinds.
#[derive(Clone, Copy, Debug, PartialEq, Eq, Structural)]
pub enum TokenType {
    // Single character tokens.
    LeftParen,
    RightParen,
    LeftBrace,
    RightBrace,
    Comma,
    Dot,
    Minus,
    Plus,
    SemiColon,
    Slash,
    Star,
    // One or two character tokens.
    Bang,
    BangEqual,
    Equal,
    EqualEqual,
    Greater,
    GreateEqual,
    Less,
    LessEqual,
    // Literals.
    Identifier,
    String,
    Number,
    // Keywords.
    And,
    Class,
    Else,
    False,
    For,
    Fun,
    If,
    Nil,
    Or,
    Print,
    Return,
    Super,
    This,
    True,
    Var,
    While,
    // Special.
    Error,
    EOF,
    Dummy,
}

/// The display name of each token kind.
pub open spec fn token_name(k: TokenType) -> Seq<char> {
    match k {
        TokenType::LeftParen => "LEFT_PAREN"@,
        TokenType::RightParen => "RIGHT_PAREN"@,
        TokenType::LeftBrace => "LEFT_BRACE"@,
        TokenType::RightBrace => "RIGHT_BRACE"@,
        TokenType::Comma => "COMMA"@,
        TokenType::Dot => "DOT"@,
        TokenType::Minus => "MINUS"@,
        TokenType::Plus => "PLUS"@,
        TokenType::SemiColon => "SEMI_COLON"@,
        TokenType::Slash => "SLASH"@,
        TokenType::Star => "STAR"@,
        TokenType::Bang => "BANG"@,
        TokenType::BangEqual => "BANG_EQUAL"@,
        TokenType::Equal => "EQUAL"@,
        TokenType::EqualEqual => "EQUAL_EQUAL"@,
        TokenType::Greater => "GREATER"@,
        TokenType::GreateEqual => "GREATER_EQUAL"@,
        TokenType::Less => "LESS"@,
        TokenType::LessEqual => "LESS_EQUAL"@,
        TokenType::Identifier => "IDENTIFIER"@,
        TokenType::String => "STRING"@,
        TokenType::Number => "NUMBER"@,
        TokenType::And => "AND"@,
        TokenType::Class => "CLASS"@,
        TokenType::Else => "ELSE"@,
        TokenType::False => "FALSE"@,
        TokenType::For => "FOR"@,
        TokenType::Fun => "FUN"@,
        TokenType::If => "IF"@,
        TokenType::Nil => "NIL"@,
        TokenType::Or => "OR"@,
        TokenType::Print => "PRINT"@,
        TokenType::Return => "RETURN"@,
        TokenType::Super => "SUPER"@,
        TokenType::This => "THIS"@,
        TokenType::True => "TRUE"@,
        TokenType::Var => "VAR"@,
        TokenType::While => "WHILE"@,
        TokenType::Error => "<ERROR>"@,
        TokenType::EOF => "<EOF>"@,
        TokenType::Dummy => "<DUMMY>"@,
    }
}

impl TokenType {
    /// The display name of the kind.
    pub fn name(&self) -> (r: &'static str)
        ensures
            r@ == token_name(*self),
    {
        match self {
            TokenType::LeftParen => "LEFT_PAREN",
            TokenType::RightParen => "RIGHT_PAREN",
            TokenType::LeftBrace => "LEFT_BRACE",
            TokenType::RightBrace => "RIGHT_BRACE",
            TokenType::Comma => "COMMA",
            TokenType::Dot => "DOT",
            TokenType::Minus => "MINUS",
            TokenType::Plus => "PLUS",
            TokenType::SemiColon => "SEMI_COLON",
            TokenType::Slash => "SLASH",
            TokenType::Star => "STAR",
            TokenType::Bang => "BANG",
            TokenType::BangEqual => "BANG_EQUAL",
            TokenType::Equal => "EQUAL",
            TokenType::EqualEqual => "EQUAL_EQUAL",
            TokenType::Greater => "GREATER",
            TokenType::GreateEqual => "GREATER_EQUAL",
            TokenType::Less => "LESS",
            TokenType::LessEqual => "LESS_EQUAL",
            TokenType::Identifier => "IDENTIFIER",
            TokenType::String => "STRING",
            TokenType::Number => "NUMBER",
            TokenType::And => "AND",
            TokenType::Class => "CLASS",
            TokenType::Else => "ELSE",
            TokenType::False => "FALSE",
            TokenType::For => "FOR",
            TokenType::Fun => "FUN",
            TokenType::If => "IF",
            TokenType::Nil => "NIL",
            TokenType::Or => "OR",
            TokenType::Print => "PRINT",
            TokenType::Return => "RETURN",
            TokenType::Super => "SUPER",
            TokenType::This => "THIS",
            TokenType::True => "TRUE",
            TokenType::Var => "VAR",
            TokenType::While => "WHILE",
            TokenType::Error => "<ERROR>",
            TokenType::EOF => "<EOF>",
            TokenType::Dummy => "<DUMMY>",
        }
    }
}

/// A token: its kind, its text (the message, for an `Error` token), and the
/// line and column just after it.
pub struct Token {
    pub token_type: TokenType,
    pub the_string: String,
    pub line: usize,
    pub column: usize,
}

impl Token {
    pub fn ttype(&self) -> (r: TokenType)
        ensures
            r == self.token_type,
    {
        self.token_type
    }

    pub fn line(&self) -> (r: usize)
        ensures
            r == self.line,
    {
        self.line
    }

    pub fn column(&self) -> (r: usize)
        ensures
            r == self.column,
    {
        self.column
    }

    pub fn as_str(&self) -> (r: &str)
        ensures
            r@ == self.the_string@,
    {
        self.the_string.as_str()
    }

    /// The placeholder token that stands before any token was read.
    pub fn create_dummy() -> (r: Token)
        ensures
            r.token_type == TokenType::Dummy,
            r.the_string@ == Seq::<char>::empty(),
            r.line == 0,
            r.column == 0,
    {
        Token { token_type: TokenType::Dummy, the_string: String::new(), line: 0, column: 0 }
    }
}

/// What `char::is_alphabetic` answers: the Unicode `Alphabetic` property.
pub uninterp spec fn alphabetic_char(c: char) -> bool;

/// What `char::is_alphanumeric` answers: `Alphabetic` or `Numeric`.
pub uninterp spec fn alphanumeric_char(c: char) -> bool;

/// The Unicode `White_Space` property.
pub open spec fn whitespace_char(c: char) -> bool {
    ('\u{9}' <= c && c <= '\u{d}') || c == ' ' || c == '\u{85}' || c == '\u{a0}' || c
        == '\u{1680}' || ('\u{2000}' <= c && c <= '\u{200a}') || c == '\u{2028}' || c
        == '\u{2029}' || c == '\u{202f}' || c == '\u{205f}' || c == '\u{3000}'
}

/// Relies on `char::is_whitespace`, which tests the Unicode `White_Space`
/// property.
#[verifier::external_body]
fn is_whitespace(c: char) -> (r: bool)
    ensures
        r == whitespace_char(c),
{
    c.is_whitespace()
}

/// Relies on `char::is_alphabetic`.
#[verifier::external_body]
fn is_alphabetic(c: char) -> (r: bool)
    ensures
        r == alphabetic_char(c),
{
    c.is_alphabetic()
}

/// Relies on `char::is_alphanumeric`.
#[verifier::external_body]
fn is_alphanumeric(c: char) -> (r: bool)
    ensures
        r == alphanumeric_char(c),
{
    c.is_alphanumeric()
}

/// Relies on `String::push`: appends one character.
#[verifier::external_body]
fn push_char(s: &mut String, c: char)
    ensures
        final(s)@ == old(s)@.push(c),
{
    s.push(c)
}

/// A decimal digit.
pub open spec fn digit_char(c: char) -> bool {
    '0' <= c && c <= '9'
}

pub open spec fn ident_first_char(c: char) -> bool {
    alphabetic_char(c) || c == '_'
}

pub open spec fn ident_rest_char(c: char) -> bool {
    alphanumeric_char(c) || c == '_'
}

/// The character at `i`, or NUL past either end.
pub open spec fn char_at(buf: Seq<char>, i: int) -> char {
    if 0 <= i < buf.len() {
        buf[i]
    } else {
        '\0'
    }
}

/// Where scanning resumes after skipping whitespace and `//` comments from `i`
/// (`in_comment`: inside a comment, which runs to the next newline).
pub open spec fn skip_end(buf: Seq<char>, i: int, in_comment: bool) -> int
    decreases buf.len() - i, if in_comment {
        1int
    } else {
        0int
    },
{
    if i < 0 || i >= buf.len() {
        i
    } else if in_comment {
        if buf[i] == '\n' {
            skip_end(buf, i, false)
        } else {
            skip_end(buf, i + 1, true)
        }
    } else if whitespace_char(buf[i]) {
        skip_end(buf, i + 1, false)
    } else if buf[i] == '/' && char_at(buf, i + 1) == '/' {
        skip_end(buf, i + 2, true)
    } else {
        i
    }
}

/// The first index from `i` on that does not hold a digit.
pub open spec fn digits_end(buf: Seq<char>, i: int) -> int
    decreases buf.len() - i,
{
    if 0 <= i < buf.len() && digit_char(buf[i]) {
        digits_end(buf, i + 1)
    } else {
        i
    }
}

/// The first index from `i` on that cannot continue an identifier.
pub open spec fn ident_end(buf: Seq<char>, i: int) -> int
    decreases buf.len() - i,
{
    if 0 <= i < buf.len() && ident_rest_char(buf[i]) {
        ident_end(buf, i + 1)
    } else {
        i
    }
}

/// The first index from `i` on that holds a double quote, or the length.
pub open spec fn quote_end(buf: Seq<char>, i: int) -> int
    decreases buf.len() - i,
{
    if 0 <= i < buf.len() && buf[i] != '"' {
        quote_end(buf, i + 1)
    } else {
        i
    }
}

/// End of a number literal that starts at `s`: digits, then optionally a
/// dot followed by at least one digit and the digits after it.
pub open spec fn number_end(buf: Seq<char>, s: int) -> int {
    let d = digits_end(buf, s);
    if char_at(buf, d) == '.' && digit_char(char_at(buf, d + 1)) {
        digits_end(buf, d + 1)
    } else {
        d
    }
}

pub open spec fn single_char_kind(c: char) -> Option<TokenType> {
    if c == '(' {
        Some(TokenType::LeftParen)
    } else if c == ')' {
        Some(TokenType::RightParen)
    } else if c == '{' {
        Some(TokenType::LeftBrace)
    } else if c == '}' {
        Some(TokenType::RightBrace)
    } else if c == ';' {
        Some(TokenType::SemiColon)
    } else if c == ',' {
        Some(TokenType::Comma)
    } else if c == '.' {
        Some(TokenType::Dot)
    } else if c == '-' {
        Some(TokenType::Minus)
    } else if c == '+' {
        Some(TokenType::Plus)
    } else if c == '/' {
        Some(TokenType::Slash)
    } else if c == '*' {
        Some(TokenType::Star)
    } else {
        None
    }
}

/// The operators of one or two characters: the kind alone, and the kind with
/// `=` after it.
pub open spec fn operator_kinds(c: char) -> Option<(TokenType, TokenType)> {
    if c == '!' {
        Some((TokenType::Bang, TokenType::BangEqual))
    } else if c == '=' {
        Some((TokenType::Equal, TokenType::EqualEqual))
    } else if c == '<' {
        Some((TokenType::Less, TokenType::LessEqual))
    } else if c == '>' {
        Some((TokenType::Greater, TokenType::GreateEqual))
    } else {
        None
    }
}

/// The kind of a word made of identifier characters: one of the sixteen
/// keywords, else `Identifier`.
pub open spec fn keyword_kind(w: Seq<char>) -> TokenType {
    let n = w.len();
    if n == 3 && w[0] == 'a' && w[1] == 'n' && w[2] == 'd' {
        TokenType::And
    } else if n == 5 && w[0] == 'c' && w[1] == 'l' && w[2] == 'a' && w[3] == 's' && w[4] == 's' {
        TokenType::Class
    } else if n == 4 && w[0] == 'e' && w[1] == 'l' && w[2] == 's' && w[3] == 'e' {
        TokenType::Else
    } else if n == 5 && w[0] == 'f' && w[1] == 'a' && w[2] == 'l' && w[3] == 's' && w[4] == 'e' {
        TokenType::False
    } else if n == 3 && w[0] == 'f' && w[1] == 'o' && w[2] == 'r' {
        TokenType::For
    } else if n == 3 && w[0] == 'f' && w[1] == 'u' && w[2] == 'n' {
        TokenType::Fun
    } else if n == 2 && w[0] == 'i' && w[1] == 'f' {
        TokenType::If
    } else if n == 3 && w[0] == 'n' && w[1] == 'i' && w[2] == 'l' {
        TokenType::Nil
    } else if n == 2 && w[0] == 'o' && w[1] == 'r' {
        TokenType::Or
    } else if n == 5 && w[0] == 'p' && w[1] == 'r' && w[2] == 'i' && w[3] == 'n' && w[4] == 't' {
        TokenType::Print
    } else if n == 6 && w[0] == 'r' && w[1] == 'e' && w[2] == 't' && w[3] == 'u' && w[4] == 'r'
        && w[5] == 'n' {
        TokenType::Return
    } else if n == 5 && w[0] == 's' && w[1] == 'u' && w[2] == 'p' && w[3] == 'e' && w[4] == 'r' {
        TokenType::Super
    } else if n == 4 && w[0] == 't' && w[1] == 'h' && w[2] == 'i' && w[3] == 's' {
        TokenType::This
    } else if n == 4 && w[0] == 't' && w[1] == 'r' && w[2] == 'u' && w[3] == 'e' {
        TokenType::True
    } else if n == 3 && w[0] == 'v' && w[1] == 'a' && w[2] == 'r' {
        TokenType::Var
    } else if n == 5 && w[0] == 'w' && w[1] == 'h' && w[2] == 'i' && w[3] == 'l' && w[4] == 'e' {
        TokenType::While
    } else {
        TokenType::Identifier
    }
}

/// Where the token that starts at `s` (after skipping) ends.
pub open spec fn token_end(buf: Seq<char>, s: int) -> int {
    let c = buf[s];
    if single_char_kind(c) is Some {
        s + 1
    } else if operator_kinds(c) is Some {
        if char_at(buf, s + 1) == '=' {
            s + 2
        } else {
            s + 1
        }
    } else if c == '"' {
        let q = quote_end(buf, s + 1);
        if q < buf.len() {
            q + 1
        } else {
            q
        }
    } else if digit_char(c) {
        number_end(buf, s)
    } else if ident_first_char(c) {
        ident_end(buf, s + 1)
    } else {
        s + 1
    }
}

/// The kind of the token that starts at `s` (after skipping).
pub open spec fn token_kind(buf: Seq<char>, s: int) -> TokenType {
    let c = buf[s];
    if single_char_kind(c) is Some {
        single_char_kind(c)->0
    } else if operator_kinds(c) is Some {
        let (alone, with_equal) = operator_kinds(c)->0;
        if char_at(buf, s + 1) == '=' {
            with_equal
        } else {
            alone
        }
    } else if c == '"' {
        if quote_end(buf, s + 1) < buf.len() {
            TokenType::String
        } else {
            TokenType::Error
        }
    } else if digit_char(c) {
        TokenType::Number
    } else if ident_first_char(c) {
        keyword_kind(buf.subrange(s, ident_end(buf, s + 1)))
    } else {
        TokenType::Error
    }
}

/// The message of the error token that starts at `s`.
pub open spec fn error_message(buf: Seq<char>, s: int) -> Seq<char> {
    if buf[s] == '"' {
        "Unterminated string."@
    } else {
        "Unexpected character."@
    }
}

/// Line and column after consuming one character at (`line`, `column`): a
/// newline starts the next line, a tab advances four columns.
pub open spec fn next_position(c: char, pos: (int, int)) -> (int, int) {
    if c == '\n' {
        (pos.0 + 1, 1)
    } else if c == '\t' {
        (pos.0, pos.1 + 4)
    } else {
        (pos.0, pos.1 + 1)
    }
}

/// Line and column after consuming the first `n` characters from line 1,
/// column 1.
pub open spec fn position(buf: Seq<char>, n: int) -> (int, int)
    decreases n,
{
    if n <= 0 {
        (1, 1)
    } else {
        next_position(buf[n - 1], position(buf, n - 1))
    }
}

proof fn lemma_position_bounds(buf: Seq<char>, n: int)
    requires
        0 <= n <= buf.len(),
    ensures
        1 <= position(buf, n).0 <= 1 + n,
        1 <= position(buf, n).1 <= 1 + 4 * n,
    decreases n,
{
    if n > 0 {
        lemma_position_bounds(buf, n - 1);
    }
}

/// `char::is_digit(10)`: an ASCII decimal digit.
fn is_digit(c: char) -> (r: bool)
    ensures
        r == digit_char(c),
{
    c >= '0' && c <= '9'
}

/// The most characters a source may hold, so that line and column counts fit.
pub const MAX_SOURCE_LEN: usize = usize::MAX / 8;

/// Reads a source text token by token.
pub struct Scanner {
    buffer: Vec<char>,
    start: usize,
    current: usize,
    line: usize,
    column: usize,
}

/// The token that a scanner whose characters are `buf` hands out next, when
/// scanning resumes at `s` and the token ends at `e`.
pub open spec fn token_matches(t: Token, buf: Seq<char>, s: int, e: int) -> bool {
    &&& s < buf.len() ==> e == token_end(buf, s) && t.token_type == token_kind(buf, s)
        && (if t.token_type == TokenType::Error {
        t.the_string@ == error_message(buf, s)
    } else {
        t.the_string@ == buf.subrange(s, e)
    })
    &&& s >= buf.len() ==> e == s && t.token_type == TokenType::EOF && t.the_string@
        == Seq::<char>::empty()
    &&& t.line == position(buf, e).0
    &&& t.column == position(buf, e).1
}

impl Scanner {
    /// The characters of the source.
    pub closed spec fn chars(&self) -> Seq<char> {
        self.buffer@
    }

    /// Index of the next character to read.
    pub closed spec fn cursor(&self) -> int {
        self.current as int
    }

    pub closed spec fn wf(&self) -> bool {
        &&& self.buffer@.len() <= MAX_SOURCE_LEN
        &&& self.start <= self.current <= self.buffer@.len()
        &&& self.line == position(self.buffer@, self.current as int).0
        &&& self.column == position(self.buffer@, self.current as int).1
    }

    /// Characters left to read.
    pub open spec fn remaining(&self) -> nat {
        (self.chars().len() - self.cursor()) as nat
    }

    pub fn init(source: &str) -> (r: Scanner)
        requires
            source@.len() <= MAX_SOURCE_LEN,
        ensures
            r.wf(),
            r.chars() == source@,
            r.cursor() == 0,
    {
        let mut buffer: Vec<char> = Vec::new();
        let mut it = source.chars();
        proof {
            broadcast use vstd::string::axiom_spec_iter, vstd::string::next_postcondition;
        }
        loop
            invariant
                buffer@ + it.remaining() == source@,
                it.obeys_prophetic_iter_laws(),
                it.decrease() is Some,
            ensures
                buffer@ == source@,
            decreases it.decrease()->0,
        {
            let ghost before = it;
            match it.next() {
                Some(c) => {
                    buffer.push(c);
                },
                None => {
                    assert(it.remaining().len() == 0) by {
                        if before.remaining().len() > 0 {
                            assert(false);
                        }
                    }
                    assert(buffer@ =~= buffer@ + it.remaining());
                    break ;
                },
            }
        }
        Scanner { buffer, start: 0, current: 0, line: 1, column: 1 }
    }

    /// Index where the token being read starts.
    pub closed spec fn token_start(&self) -> int {
        self.start as int
    }

    /// Reads the next token. Whitespace and `//` comments before it are
    /// skipped; at the end of the source the token is `EOF`, again and again.
    pub fn scan_token(&mut self) -> (r: Token)
        requires
            old(self).wf(),
        ensures
            final(self).wf(),
            final(self).chars() == old(self).chars(),
            token_matches(
                r,
                old(self).chars(),
                skip_end(old(self).chars(), old(self).cursor(), false),
                final(self).cursor(),
            ),
            r.token_type == TokenType::EOF ==> final(self).cursor() == final(self).chars().len(),
            r.token_type != TokenType::EOF ==> final(self).cursor() > old(self).cursor(),
            final(self).cursor() >= old(self).cursor(),
            final(self).cursor() <= final(self).chars().len(),
    {
        self.skip_whitespace();
        self.start = self.current;
        if self.is_at_end() {
            let eof = self.make_token(TokenType::EOF);
            assert(eof.the_string@ =~= Seq::<char>::empty());
            return eof;
        }
        let c = self.advance();
        match c {
            '(' => self.make_token(TokenType::LeftParen),
            ')' => self.make_token(TokenType::RightParen),
            '{' => self.make_token(TokenType::LeftBrace),
            '}' => self.make_token(TokenType::RightBrace),
            ';' => self.make_token(TokenType::SemiColon),
            ',' => self.make_token(TokenType::Comma),
            '.' => self.make_token(TokenType::Dot),
            '-' => self.make_token(TokenType::Minus),
            '+' => self.make_token(TokenType::Plus),
            '/' => self.make_token(TokenType::Slash),
            '*' => self.make_token(TokenType::Star),
            '!' => {
                if self.match_char('=') {
                    self.make_token(TokenType::BangEqual)
                } else {
                    self.make_token(TokenType::Bang)
                }
            },
            '=' => {
                if self.match_char('=') {
                    self.make_token(TokenType::EqualEqual)
                } else {
                    self.make_token(TokenType::Equal)
                }
            },
            '<' => {
                if self.match_char('=') {
                    self.make_token(TokenType::LessEqual)
                } else {
                    self.make_token(TokenType::Less)
                }
            },
            '>' => {
                if self.match_char('=') {
                    self.make_token(TokenType::GreateEqual)
                } else {
                    self.make_token(TokenType::Greater)
                }
            },
            '"' => self.string(),
            _ => {
                if is_digit(c) {
                    self.number()
                } else if Self::identifier_first(c) {
                    self.identifier()
                } else {
                    self.error_token("Unexpected character.")
                }
            },
        }
    }

    fn identifier_first(c: char) -> (r: bool)
        ensures
            r == ident_first_char(c),
    {
        is_alphabetic(c) || c == '_'
    }

    fn identifier_rest(c: char) -> (r: bool)
        ensures
            r == ident_rest_char(c),
    {
        is_alphanumeric(c) || c == '_'
    }

    fn identifier(&mut self) -> (r: Token)
        requires
            old(self).wf(),
            old(self).current == old(self).start + 1,
            ident_first_char(old(self).buffer@[old(self).start as int]),
        ensures
            final(self).wf(),
            final(self).buffer@ == old(self).buffer@,
            final(self).start == old(self).start,
            final(self).current >= old(self).current,
            final(self).current == ident_end(old(self).buffer@, old(self).current as int),
            r.token_type == keyword_kind(
                old(self).buffer@.subrange(old(self).start as int, final(self).current as int),
            ),
            r.the_string@ == old(self).buffer@.subrange(
                old(self).start as int,
                final(self).current as int,
            ),
            r.line == final(self).line,
            r.column == final(self).column,
    {
        while !self.is_at_end() && Self::identifier_rest(self.peek())
            invariant
                self.wf(),
                self.buffer@ == old(self).buffer@,
                self.start == old(self).start,
                self.current > self.start,
                ident_end(self.buffer@, self.current as int) == ident_end(
                    self.buffer@,
                    old(self).current as int,
                ),
            decreases self.buffer@.len() - self.current,
        {
            self.advance();
        }
        let tt = self.identifier_type();
        self.make_token(tt)
    }

    fn identifier_type(&self) -> (r: TokenType)
        requires
            self.wf(),
            self.start < self.current,
        ensures
            r == keyword_kind(self.buffer@.subrange(self.start as int, self.current as int)),
    {
        let ghost w = self.buffer@.subrange(self.start as int, self.current as int);
        assert(forall|k: int| 0 <= k < w.len() ==> w[k] == self.buffer@[self.start + k]);
        match self.buffer[self.start] {
            'a' => self.check_keyword(1, 2, vec!['n', 'd'], TokenType::And),
            'c' => self.check_keyword(1, 4, vec!['l', 'a', 's', 's'], TokenType::Class),
            'e' => self.check_keyword(1, 3, vec!['l', 's', 'e'], TokenType::Else),
            'f' => {
                if self.current - self.start > 1 {
                    match self.buffer[self.start + 1] {
                        'a' => self.check_keyword(2, 3, vec!['l', 's', 'e'], TokenType::False),
                        'o' => self.check_keyword(2, 1, vec!['r'], TokenType::For),
                        'u' => self.check_keyword(2, 1, vec!['n'], TokenType::Fun),
                        _ => TokenType::Identifier,
                    }
                } else {
                    TokenType::Identifier
                }
            },
            'i' => self.check_keyword(1, 1, vec!['f'], TokenType::If),
            'n' => self.check_keyword(1, 2, vec!['i', 'l'], TokenType::Nil),
            'o' => self.check_keyword(1, 1, vec!['r'], TokenType::Or),
            'p' => self.check_keyword(1, 4, vec!['r', 'i', 'n', 't'], TokenType::Print),
            'r' => self.check_keyword(1, 5, vec!['e', 't', 'u', 'r', 'n'], TokenType::Return),
            's' => self.check_keyword(1, 4, vec!['u', 'p', 'e', 'r'], TokenType::Super),
            't' => {
                if self.current - self.start > 1 {
                    match self.buffer[self.start + 1] {
                        'h' => self.check_keyword(2, 2, vec!['i', 's'], TokenType::This),
                        'r' => self.check_keyword(2, 2, vec!['u', 'e'], TokenType::True),
                        _ => TokenType::Identifier,
                    }
                } else {
                    TokenType::Identifier
                }
            },
            'v' => self.check_keyword(1, 2, vec!['a', 'r'], TokenType::Var),
            'w' => self.check_keyword(1, 4, vec!['h', 'i', 'l', 'e'], TokenType::While),
            _ => TokenType::Identifier,
        }
    }

    /// `ttype` where the current word is its first `offset` characters
    /// followed by exactly `chars`, else `Identifier`.
    fn check_keyword(&self, offset: usize, length: usize, chars: Vec<char>, ttype: TokenType) -> (r:
        TokenType)
        requires
            self.wf(),
            chars@.len() == length,
            offset <= 2,
            length <= 5,
        ensures
            r == (if self.current - self.start == offset + length && (forall|k: int|
                0 <= k < length ==> #[trigger] chars@[k] == self.buffer@[self.start + offset + k]) {
                ttype
            } else {
                TokenType::Identifier
            }),
    {
        if self.current - self.start != offset + length {
            return TokenType::Identifier;
        }
        let mut idx: usize = 0;
        while idx < length
            invariant
                self.wf(),
                chars@.len() == length,
                self.current - self.start == offset + length,
                idx <= length,
                forall|k: int| 0 <= k < idx ==> #[trigger] chars@[k] == self.buffer@[self.start + offset + k],
            decreases length - idx,
        {
            if chars[idx] != self.buffer[self.start + offset + idx] {
                return TokenType::Identifier;
            }
            idx += 1;
        }
        ttype
    }

    fn number(&mut self) -> (r: Token)
        requires
            old(self).wf(),
            old(self).current == old(self).start + 1,
            digit_char(old(self).buffer@[old(self).start as int]),
        ensures
            final(self).wf(),
            final(self).buffer@ == old(self).buffer@,
            final(self).start == old(self).start,
            final(self).current >= old(self).current,
            final(self).current == number_end(old(self).buffer@, old(self).start as int),
            r.token_type == TokenType::Number,
            r.the_string@ == old(self).buffer@.subrange(
                old(self).start as int,
                final(self).current as int,
            ),
            r.line == final(self).line,
            r.column == final(self).column,
    {
        let ghost buf = self.buffer@;
        let ghost s = self.start as int;
        while is_digit(self.peek())
            invariant
                self.wf(),
                self.buffer@ == buf,
                self.start == s,
                self.current > s,
                digits_end(buf, self.current as int) == digits_end(buf, s),
            decreases self.buffer@.len() - self.current,
        {
            self.advance();
        }
        if self.peek() == '.' && is_digit(self.peek_next(1)) {
            self.advance();
            while is_digit(self.peek())
                invariant
                    self.wf(),
                    self.buffer@ == buf,
                    self.start == s,
                    self.current > s,
                    char_at(buf, digits_end(buf, s)) == '.',
                    digits_end(buf, self.current as int) == digits_end(buf, digits_end(buf, s) + 1),
                decreases self.buffer@.len() - self.current,
            {
                self.advance();
            }
        }
        self.make_token(TokenType::Number)
    }

    fn string(&mut self) -> (r: Token)
        requires
            old(self).wf(),
            old(self).current == old(self).start + 1,
            old(self).buffer@[old(self).start as int] == '"',
        ensures
            final(self).wf(),
            final(self).buffer@ == old(self).buffer@,
            final(self).start == old(self).start,
            final(self).current >= old(self).current,
            final(self).current == token_end(old(self).buffer@, old(self).start as int),
            r.token_type == token_kind(old(self).buffer@, old(self).start as int),
            r.token_type == TokenType::Error ==> r.the_string@ == "Unterminated string."@,
            r.token_type != TokenType::Error ==> r.the_string@ == old(self).buffer@.subrange(
                old(self).start as int,
                final(self).current as int,
            ),
            r.line == final(self).line,
            r.column == final(self).column,
    {
        let ghost buf = self.buffer@;
        let ghost s = self.start as int;
        while !self.is_at_end() && self.peek() != '"'
            invariant
                self.wf(),
                self.buffer@ == buf,
                self.start == s,
                self.current > s,
                quote_end(buf, self.current as int) == quote_end(buf, s + 1),
            decreases self.buffer@.len() - self.current,
        {
            self.advance();
        }
        if self.is_at_end() {
            return self.error_token("Unterminated string.");
        }
        self.advance();
        self.make_token(TokenType::String)
    }

    fn skip_whitespace(&mut self)
        requires
            old(self).wf(),
        ensures
            final(self).wf(),
            final(self).buffer@ == old(self).buffer@,
            final(self).start == old(self).start,
            final(self).current == skip_end(old(self).buffer@, old(self).current as int, false),
            final(self).current >= old(self).current,
    {
        let ghost buf = self.buffer@;
        let ghost target = skip_end(buf, self.current as int, false);
        loop
            invariant
                self.wf(),
                self.buffer@ == buf,
                buf == old(self).buffer@,
                target == skip_end(buf, old(self).current as int, false),
                self.start == old(self).start,
                self.current >= old(self).current,
                skip_end(buf, self.current as int, false) == target,
            ensures
                self.wf(),
                self.buffer@ == buf,
                self.start == old(self).start,
                self.current >= old(self).current,
                self.current == target,
            decreases self.buffer@.len() - self.current,
        {
            if !self.is_at_end() && is_whitespace(self.peek()) {
                self.advance();
            } else if self.peek() == '/' {
                if self.peek_next(1) == '/' {
                    let ghost c0 = self.current as int;
                    assert(skip_end(buf, c0, false) == skip_end(buf, c0 + 2, true));
                    self.advance();
                    self.advance();
                    while self.peek() != '\n' && !self.is_at_end()
                        invariant
                            self.wf(),
                            self.buffer@ == buf,
                            self.start == old(self).start,
                            self.current >= c0 + 2,
                            skip_end(buf, self.current as int, true) == target,
                        decreases self.buffer@.len() - self.current,
                    {
                        self.advance();
                    }
                } else {
                    return ;
                }
            } else {
                return ;
            }
        }
    }

    fn peek(&self) -> (r: char)
        requires
            self.wf(),
        ensures
            r == char_at(self.buffer@, self.current as int),
    {
        if self.is_at_end() {
            '\0'
        } else {
            self.buffer[self.current]
        }
    }

    fn peek_next(&self, steps: usize) -> (r: char)
        requires
            self.wf(),
        ensures
            r == char_at(self.buffer@, self.current + steps),
    {
        if steps >= self.buffer.len() - self.current {
            '\0'
        } else {
            self.buffer[self.current + steps]
        }
    }

    fn match_char(&mut self, the_char: char) -> (r: bool)
        requires
            old(self).wf(),
        ensures
            final(self).wf(),
            final(self).buffer@ == old(self).buffer@,
            final(self).start == old(self).start,
            r == (old(self).current < old(self).buffer@.len() && old(self).buffer@[old(
                self,
            ).current as int] == the_char),
            final(self).current == old(self).current + if r {
                1int
            } else {
                0int
            },
    {
        if self.is_at_end() || self.peek() != the_char {
            return false;
        }
        self.advance();
        true
    }

    /// Consumes one character and returns it, keeping line and column.
    pub fn advance(&mut self) -> (r: char)
        requires
            old(self).wf(),
            old(self).cursor() < old(self).chars().len(),
        ensures
            final(self).wf(),
            final(self).chars() == old(self).chars(),
            final(self).token_start() == old(self).token_start(),
            final(self).cursor() == old(self).cursor() + 1,
            r == old(self).chars()[old(self).cursor()],
    {
        proof {
            lemma_position_bounds(self.buffer@, self.current + 1);
        }
        let c = self.buffer[self.current];
        match c {
            '\n' => {
                self.line += 1;
                self.column = 1;
            },
            '\t' => {
                self.column += 4;
            },
            _ => {
                self.column += 1;
            },
        }
        self.current += 1;
        c
    }

    fn is_at_end(&self) -> (r: bool)
        ensures
            r == (self.current >= self.buffer@.len()),
    {
        self.current >= self.buffer.len()
    }

    fn make_token(&self, ttype: TokenType) -> (r: Token)
        requires
            self.wf(),
        ensures
            r.token_type == ttype,
            r.the_string@ == self.buffer@.subrange(self.start as int, self.current as int),
            r.line == self.line,
            r.column == self.column,
    {
        let mut s = String::new();
        let mut i = self.start;
        while i < self.current
            invariant
                self.wf(),
                self.start <= i <= self.current,
                s@ == self.buffer@.subrange(self.start as int, i as int),
            decreases self.current - i,
        {
            push_char(&mut s, self.buffer[i]);
            i += 1;
            assert(s@ =~= self.buffer@.subrange(self.start as int, i as int));
        }
        Token { token_type: ttype, the_string: s, line: self.line, column: self.column }
    }

    fn error_token(&self, message: &str) -> (r: Token)
        ensures
            r.token_type == TokenType::Error,
            r.the_string@ == message@,
            r.line == self.line,
            r.column == self.column,
    {
        Token {
            token_type: TokenType::Error,
            the_string: message.to_owned(),
            line: self.line,
            column: self.column,
        }
    }
}

proof fn lemma_skip_end_bounds(buf: Seq<char>, i: int, in_comment: bool)
    requires
        0 <= i <= buf.len(),
    ensures
        i <= skip_end(buf, i, in_comment) <= buf.len(),
    decreases buf.len() - i, if in_comment {
        1int
    } else {
        0int
    },
{
    if i < buf.len() {
        if in_comment {
            if buf[i] == '\n' {
                lemma_skip_end_bounds(buf, i, false);
            } else {
                lemma_skip_end_bounds(buf, i + 1, true);
            }
        } else if whitespace_char(buf[i]) {
            lemma_skip_end_bounds(buf, i + 1, false);
        } else if buf[i] == '/' && char_at(buf, i + 1) == '/' {
            lemma_skip_end_bounds(buf, i + 2, true);
        }
    }
}

proof fn lemma_scan_ends_bounds(buf: Seq<char>, i: int)
    requires
        0 <= i <= buf.len(),
    ensures
        i <= digits_end(buf, i) <= buf.len(),
        i <= ident_end(buf, i) <= buf.len(),
        i <= quote_end(buf, i) <= buf.len(),
    decreases buf.len() - i,
{
    if i < buf.len() {
        lemma_scan_ends_bounds(buf, i + 1);
    }
}

/// Where scanning resumes lies between the cursor and the end, and a token
/// that starts there ends past its start and within the source.
pub proof fn lemma_token_bounds(buf: Seq<char>, p: int)
    requires
        0 <= p <= buf.len(),
    ensures
        p <= skip_end(buf, p, false) <= buf.len(),
        skip_end(buf, p, false) < buf.len() ==> skip_end(buf, p, false) < token_end(
            buf,
            skip_end(buf, p, false),
        ) <= buf.len(),
{
    lemma_skip_end_bounds(buf, p, false);
    let s = skip_end(buf, p, false);
    if s < buf.len() {
        lemma_scan_ends_bounds(buf, s + 1);
        lemma_scan_ends_bounds(buf, s);
        let d = digits_end(buf, s);
        if 0 <= d + 1 <= buf.len() {
            lemma_scan_ends_bounds(buf, d + 1);
        }
    }
}

/// The texts of the number literals of `buf` from `pos` on, in order.
pub open spec fn literals_from(buf: Seq<char>, pos: int) -> Seq<Seq<char>>
    decreases buf.len() - pos,
{
    let s = skip_end(buf, pos, false);
    if pos < 0 || s >= buf.len() {
        Seq::empty()
    } else {
        let e = token_end(buf, s);
        if e <= pos || e > buf.len() {
            Seq::empty()
        } else if token_kind(buf, s) == TokenType::Number {
            seq![buf.subrange(s, e)] + literals_from(buf, e)
        } else {
            literals_from(buf, e)
        }
    }
}

/// The texts of the number literals of `source`, in the order the compiler
/// meets them: what the host converts to the values it hands to `compile`.
pub fn number_literals(source: &str) -> (r: Vec<String>)
    requires
        source@.len() <= MAX_SOURCE_LEN,
    ensures
        r@.map_values(|t: String| t@) == literals_from(source@, 0),
{
    let mut scanner = Scanner::init(source);
    let mut found: Vec<String> = Vec::new();
    loop
        invariant
            scanner.wf(),
            scanner.chars() == source@,
            scanner.cursor() <= scanner.chars().len(),
            found@.map_values(|t: String| t@) + literals_from(source@, scanner.cursor())
                == literals_from(source@, 0),
        decreases scanner.remaining(),
    {
        let ghost before = scanner.cursor();
        let tok = scanner.scan_token();
        if tok.token_type == TokenType::EOF {
            assert(literals_from(source@, before) =~= Seq::<Seq<char>>::empty());
            assert(found@.map_values(|t: String| t@) =~= found@.map_values(|t: String| t@)
                + Seq::<Seq<char>>::empty());
            return found;
        }
        let ghost old_found = found@.map_values(|t: String| t@);
        if tok.token_type == TokenType::Number {
            found.push(tok.the_string);
            assert(found@.map_values(|t: String| t@) =~= old_found.push(tok.the_string@));
            assert(old_found + literals_from(source@, before) =~= old_found.push(tok.the_string@)
                + literals_from(source@, scanner.cursor()));
        }
    }
}

} // verus!
