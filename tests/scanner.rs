use lox_vm::scanner::{Scanner, Token, TokenType};

fn kinds(source: &str) -> Vec<TokenType> {
    let mut s = Scanner::init(source);
    let mut out = Vec::new();
    loop {
        let t = s.scan_token();
        out.push(t.ttype());
        if t.ttype() == TokenType::EOF {
            return out;
        }
    }
}

#[test]
fn punctuation_and_operators() {
    assert_eq!(
        kinds("(){};,.-+/*! != = == < <= > >="),
        vec![
            TokenType::LeftParen, TokenType::RightParen, TokenType::LeftBrace, TokenType::RightBrace, TokenType::SemiColon, TokenType::Comma, TokenType::Dot, TokenType::Minus, TokenType::Plus,
            TokenType::Slash, TokenType::Star, TokenType::Bang, TokenType::BangEqual, TokenType::Equal, TokenType::EqualEqual, TokenType::Less, TokenType::LessEqual, TokenType::Greater,
            TokenType::GreateEqual, TokenType::EOF
        ]
    );
}

#[test]
fn keywords_and_identifiers() {
    assert_eq!(
        kinds("and class else false for fun if nil or print return super this true var while"),
        vec![
            TokenType::And, TokenType::Class, TokenType::Else, TokenType::False, TokenType::For, TokenType::Fun, TokenType::If, TokenType::Nil, TokenType::Or, TokenType::Print, TokenType::Return, TokenType::Super, TokenType::This, TokenType::True,
            TokenType::Var, TokenType::While, TokenType::EOF
        ]
    );
    assert_eq!(
        kinds("an andy f fa t th tru _x classes whilst"),
        vec![
            TokenType::Identifier, TokenType::Identifier, TokenType::Identifier, TokenType::Identifier, TokenType::Identifier, TokenType::Identifier, TokenType::Identifier,
            TokenType::Identifier, TokenType::Identifier, TokenType::Identifier, TokenType::EOF
        ]
    );
}

#[test]
fn literals_and_their_text() {
    let mut s = Scanner::init("12.5 \"hi there\" 7. name_1");
    let t = s.scan_token();
    assert_eq!((t.ttype(), t.as_str()), (TokenType::Number, "12.5"));
    let t = s.scan_token();
    assert_eq!((t.ttype(), t.as_str()), (TokenType::String, "\"hi there\""));
    let t = s.scan_token();
    assert_eq!((t.ttype(), t.as_str()), (TokenType::Number, "7"));
    let t = s.scan_token();
    assert_eq!((t.ttype(), t.as_str()), (TokenType::Dot, "."));
    let t = s.scan_token();
    assert_eq!((t.ttype(), t.as_str()), (TokenType::Identifier, "name_1"));
}

#[test]
fn lexical_errors() {
    let mut s = Scanner::init("@ \"open");
    let t = s.scan_token();
    assert_eq!((t.ttype(), t.as_str()), (TokenType::Error, "Unexpected character."));
    let t = s.scan_token();
    assert_eq!((t.ttype(), t.as_str()), (TokenType::Error, "Unterminated string."));
    assert_eq!(s.scan_token().ttype(), TokenType::EOF);
}

#[test]
fn eof_repeats() {
    let mut s = Scanner::init("  // only a comment");
    for _ in 0..3 {
        let t = s.scan_token();
        assert_eq!(t.ttype(), TokenType::EOF);
        assert_eq!(t.as_str(), "");
    }
}

#[test]
fn lines_and_columns_after_each_token() {
    let mut s = Scanner::init("1\n  22\t+");
    let t = s.scan_token();
    assert_eq!((t.line(), t.column()), (1, 2));
    let t = s.scan_token();
    assert_eq!((t.line(), t.column()), (2, 5));
    let t = s.scan_token();
    assert_eq!((t.line(), t.column()), (2, 10));
    let t = s.scan_token();
    assert_eq!((t.ttype(), t.line(), t.column()), (TokenType::EOF, 2, 10));
}

#[test]
fn advance_reads_characters() {
    let mut s = Scanner::init("a\tb");
    assert_eq!(s.advance(), 'a');
    assert_eq!(s.advance(), '\t');
    assert_eq!(s.advance(), 'b');
}

#[test]
fn dummy_token() {
    let t = Token::create_dummy();
    assert_eq!(t.ttype(), TokenType::Dummy);
    assert_eq!((t.line(), t.column(), t.as_str()), (0, 0, ""));
}

#[test]
fn non_ascii_letters_form_identifiers() {
    assert_eq!(kinds("été"), vec![TokenType::Identifier, TokenType::EOF]);
    assert_eq!(kinds("\u{a0}1"), vec![TokenType::Number, TokenType::EOF]);
}

#[test]
fn kind_names() {
    assert_eq!(TokenType::LeftParen.name(), "LEFT_PAREN");
    assert_eq!(TokenType::GreateEqual.name(), "GREATER_EQUAL");
    assert_eq!(TokenType::While.name(), "WHILE");
    assert_eq!(TokenType::EOF.name(), "<EOF>");
}
