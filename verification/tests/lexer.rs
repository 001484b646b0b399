//! Lexer tests.

use monkey_rust::Identifier;
use monkey_rust::Token;
use monkey_rust::lexer::Lexer;

fn ident(name: &str) -> Token {
    Token::Identifier(Identifier::new(name.to_owned()))
}

#[test]
fn tokenize_sucessfully() {
    let input = r#"
    let five = 5;
    let ten = 10;

    let add = fn(x, y) {
        x + y;
    };

    let result = add(five, ten);
    !-/*5
    5 < 10 > 5

    if (5 < 10) {
        return true;
    } else {
        return false;
    }

    10 == 10
    10 != 9
    "foobar"
    "foo bar"
    [1, 2]
    {"foo": "bar"}
    "#;

    let lexer = Lexer::new(input);
    assert_eq!(
        lexer.tokens,
        vec![
            Token::Let,
            ident("five"),
            Token::Assign,
            Token::Int(5),
            Token::Semicolon,
            Token::Let,
            ident("ten"),
            Token::Assign,
            Token::Int(10),
            Token::Semicolon,
            Token::Let,
            ident("add"),
            Token::Assign,
            Token::Function,
            Token::LParen,
            ident("x"),
            Token::Comma,
            ident("y"),
            Token::RParen,
            Token::LBrace,
            ident("x"),
            Token::Plus,
            ident("y"),
            Token::Semicolon,
            Token::RBrace,
            Token::Semicolon,
            Token::Let,
            ident("result"),
            Token::Assign,
            ident("add"),
            Token::LParen,
            ident("five"),
            Token::Comma,
            ident("ten"),
            Token::RParen,
            Token::Semicolon,
            Token::Bang,
            Token::Minus,
            Token::Slash,
            Token::Asterisk,
            Token::Int(5),
            Token::Int(5),
            Token::Lt,
            Token::Int(10),
            Token::Gt,
            Token::Int(5),
            Token::If,
            Token::LParen,
            Token::Int(5),
            Token::Lt,
            Token::Int(10),
            Token::RParen,
            Token::LBrace,
            Token::Return,
            Token::True,
            Token::Semicolon,
            Token::RBrace,
            Token::Else,
            Token::LBrace,
            Token::Return,
            Token::False,
            Token::Semicolon,
            Token::RBrace,
            Token::Int(10),
            Token::Eq,
            Token::Int(10),
            Token::Int(10),
            Token::NotEq,
            Token::Int(9),
            Token::String("foobar".to_owned()),
            Token::String("foo bar".to_owned()),
            Token::LBracket,
            Token::Int(1),
            Token::Comma,
            Token::Int(2),
            Token::RBracket,
            Token::LBrace,
            Token::String("foo".to_owned()),
            Token::Colon,
            Token::String("bar".to_owned()),
            Token::RBrace,
        ]
    )
}

#[test]
fn mod_tokenize_sucessfully() {
    let input = r#"
    let five = 5;
    let ten = 10;

    let add = fn(x, y) {
        x + y;
    };

    let result = add(five, ten);
    !-/*5;
    5 < 10 > 5;

    if (5 < 10) {
        return true;
    } else {
        return false;
    }

    10 == 10;
    10 != 9;"#;

    let lexer = Lexer::new(input);
    assert_eq!(
        lexer.tokens,
        vec![
            Token::Let,
            ident("five"),
            Token::Assign,
            Token::Int(5),
            Token::Semicolon,
            Token::Let,
            ident("ten"),
            Token::Assign,
            Token::Int(10),
            Token::Semicolon,
            Token::Let,
            ident("add"),
            Token::Assign,
            Token::Function,
            Token::LParen,
            ident("x"),
            Token::Comma,
            ident("y"),
            Token::RParen,
            Token::LBrace,
            ident("x"),
            Token::Plus,
            ident("y"),
            Token::Semicolon,
            Token::RBrace,
            Token::Semicolon,
            Token::Let,
            ident("result"),
            Token::Assign,
            ident("add"),
            Token::LParen,
            ident("five"),
            Token::Comma,
            ident("ten"),
            Token::RParen,
            Token::Semicolon,
            Token::Bang,
            Token::Minus,
            Token::Slash,
            Token::Asterisk,
            Token::Int(5),
            Token::Semicolon,
            Token::Int(5),
            Token::Lt,
            Token::Int(10),
            Token::Gt,
            Token::Int(5),
            Token::Semicolon,
            Token::If,
            Token::LParen,
            Token::Int(5),
            Token::Lt,
            Token::Int(10),
            Token::RParen,
            Token::LBrace,
            Token::Return,
            Token::True,
            Token::Semicolon,
            Token::RBrace,
            Token::Else,
            Token::LBrace,
            Token::Return,
            Token::False,
            Token::Semicolon,
            Token::RBrace,
            Token::Int(10),
            Token::Eq,
            Token::Int(10),
            Token::Semicolon,
            Token::Int(10),
            Token::NotEq,
            Token::Int(9),
            Token::Semicolon,
        ]
    )
}

#[test]
fn lexer_details() {
    // Unterminated strings take the rest of the input.
    assert_eq!(Lexer::new("\"abc").tokens, vec![Token::String("abc".to_owned())]);
    // Numbers over the signed 64-bit maximum are no tokens of the language.
    assert_eq!(Lexer::new("9223372036854775807").tokens, vec![Token::Int(i64::MAX)]);
    assert_eq!(Lexer::new("9223372036854775808").tokens, vec![Token::Illegal]);
    assert_eq!(Lexer::new("0009").tokens, vec![Token::Int(9)]);
    // Non-ASCII characters are dropped before scanning.
    assert_eq!(Lexer::new("h\u{e9}llo").tokens, vec![ident("hllo")]);
    // Unrecognized ASCII becomes the illegal token.
    assert_eq!(Lexer::new("#").tokens, vec![Token::Illegal]);
    // Two-character operators.
    assert_eq!(
        Lexer::new("<= >= == != < > = !").tokens,
        vec![
            Token::Lte,
            Token::Gte,
            Token::Eq,
            Token::NotEq,
            Token::Lt,
            Token::Gt,
            Token::Assign,
            Token::Bang,
        ]
    );
}
