//! Lexical tokens and their mathematical model.

use vstd::prelude::*;

verus! {

/// The name of a variable, parameter or binding.
///
/// Identifier text is plain ASCII produced by the lexer; its model is the
/// character sequence it holds.
#[derive(Debug, Clone, PartialEq, Eq)]
pub struct Identifier(pub String);

impl View for Identifier {
    type V = Seq<char>;

    open spec fn view(&self) -> Seq<char> {
        self.0@
    }
}

impl Identifier {
    pub fn new(name: String) -> (r: Self)
        ensures
            r@ == name@,
    {
        Identifier(name)
    }

    /// A copy of the name this identifier holds.
    pub fn inner(&self) -> (r: String)
        ensures
            r@ == self@,
    {
        self.0.clone()
    }
}

/// One lexical token.
#[derive(Debug, Clone, PartialEq, Eq)]
pub enum Token {
    Illegal,
    Identifier(Identifier),
    // Literals
    Int(i64),
    String(String),
    True,
    False,
    Nil,
    // Operators
    Eq,
    NotEq,
    Assign,
    Plus,
    Minus,
    Bang,
    Asterisk,
    Slash,
    Lt,
    Lte,
    Gt,
    Gte,
    // Delimiters
    Comma,
    Colon,
    Semicolon,
    LParen,
    RParen,
    LBrace,
    RBrace,
    LBracket,
    RBracket,
    // Keywords
    Function,
    Let,
    If,
    Else,
    Return,
}

/// The model of a token: text payloads become character sequences.
pub enum TokenM {
    Illegal,
    Identifier(Seq<char>),
    Int(i64),
    String(Seq<char>),
    True,
    False,
    Nil,
    Eq,
    NotEq,
    Assign,
    Plus,
    Minus,
    Bang,
    Asterisk,
    Slash,
    Lt,
    Lte,
    Gt,
    Gte,
    Comma,
    Colon,
    Semicolon,
    LParen,
    RParen,
    LBrace,
    RBrace,
    LBracket,
    RBracket,
    Function,
    Let,
    If,
    Else,
    Return,
}

impl View for Token {
    type V = TokenM;

    open spec fn view(&self) -> TokenM {
        match self {
            Token::Illegal => TokenM::Illegal,
            Token::Identifier(name) => TokenM::Identifier(name@),
            Token::Int(i) => TokenM::Int(*i),
            Token::String(s) => TokenM::String(s@),
            Token::True => TokenM::True,
            Token::False => TokenM::False,
            Token::Nil => TokenM::Nil,
            Token::Eq => TokenM::Eq,
            Token::NotEq => TokenM::NotEq,
            Token::Assign => TokenM::Assign,
            Token::Plus => TokenM::Plus,
            Token::Minus => TokenM::Minus,
            Token::Bang => TokenM::Bang,
            Token::Asterisk => TokenM::Asterisk,
            Token::Slash => TokenM::Slash,
            Token::Lt => TokenM::Lt,
            Token::Lte => TokenM::Lte,
            Token::Gt => TokenM::Gt,
            Token::Gte => TokenM::Gte,
            Token::Comma => TokenM::Comma,
            Token::Colon => TokenM::Colon,
            Token::Semicolon => TokenM::Semicolon,
            Token::LParen => TokenM::LParen,
            Token::RParen => TokenM::RParen,
            Token::LBrace => TokenM::LBrace,
            Token::RBrace => TokenM::RBrace,
            Token::LBracket => TokenM::LBracket,
            Token::RBracket => TokenM::RBracket,
            Token::Function => TokenM::Function,
            Token::Let => TokenM::Let,
            Token::If => TokenM::If,
            Token::Else => TokenM::Else,
            Token::Return => TokenM::Return,
        }
    }
}

/// The view of a token vector, element by element.
pub open spec fn tokens_view(ts: Seq<Token>) -> Seq<TokenM> {
    Seq::new(ts.len(), |i: int| if 0 <= i < ts.len() { ts[i]@ } else { TokenM::Illegal })
}

/// Whether two tokens are the same token with the same payload.
pub fn token_eq(a: &Token, b: &Token) -> (r: bool)
    ensures
        r <==> a@ == b@,
{
    match (a, b) {
        (Token::Illegal, Token::Illegal) => true,
        (Token::Identifier(x), Token::Identifier(y)) => x.0 == y.0,
        (Token::Int(x), Token::Int(y)) => x == y,
        (Token::String(x), Token::String(y)) => *x == *y,
        (Token::True, Token::True) => true,
        (Token::False, Token::False) => true,
        (Token::Nil, Token::Nil) => true,
        (Token::Eq, Token::Eq) => true,
        (Token::NotEq, Token::NotEq) => true,
        (Token::Assign, Token::Assign) => true,
        (Token::Plus, Token::Plus) => true,
        (Token::Minus, Token::Minus) => true,
        (Token::Bang, Token::Bang) => true,
        (Token::Asterisk, Token::Asterisk) => true,
        (Token::Slash, Token::Slash) => true,
        (Token::Lt, Token::Lt) => true,
        (Token::Lte, Token::Lte) => true,
        (Token::Gt, Token::Gt) => true,
        (Token::Gte, Token::Gte) => true,
        (Token::Comma, Token::Comma) => true,
        (Token::Colon, Token::Colon) => true,
        (Token::Semicolon, Token::Semicolon) => true,
        (Token::LParen, Token::LParen) => true,
        (Token::RParen, Token::RParen) => true,
        (Token::LBrace, Token::LBrace) => true,
        (Token::RBrace, Token::RBrace) => true,
        (Token::LBracket, Token::LBracket) => true,
        (Token::RBracket, Token::RBracket) => true,
        (Token::Function, Token::Function) => true,
        (Token::Let, Token::Let) => true,
        (Token::If, Token::If) => true,
        (Token::Else, Token::Else) => true,
        (Token::Return, Token::Return) => true,
        _ => false,
    }
}

/// The left binding power a token carries in expression position.
pub open spec fn spec_precedence(t: TokenM) -> u8 {
    match t {
        TokenM::Eq | TokenM::NotEq => 2,
        TokenM::Gt | TokenM::Gte | TokenM::Lt | TokenM::Lte => 3,
        TokenM::Plus | TokenM::Minus => 4,
        TokenM::Slash | TokenM::Asterisk => 5,
        TokenM::LParen => 7,
        TokenM::LBracket => 8,
        _ => 0,
    }
}

/// Whether a token model is a literal or identifier token.
pub open spec fn spec_is_literal(t: TokenM) -> bool {
    match t {
        TokenM::Int(_)
        | TokenM::String(_)
        | TokenM::True
        | TokenM::False
        | TokenM::Nil
        | TokenM::Identifier(_) => true,
        _ => false,
    }
}

impl Token {
    /// The precedence used as a left binding power while parsing.
    pub fn precedence(&self) -> (p: u8)
        ensures
            p == spec_precedence(self@),
    {
        match self {
            Token::Eq | Token::NotEq => 2,
            Token::Gt | Token::Gte | Token::Lt | Token::Lte => 3,
            Token::Plus | Token::Minus => 4,
            Token::Slash | Token::Asterisk => 5,
            Token::LParen => 7,
            Token::LBracket => 8,
            _ => 0,
        }
    }

    /// Whether this token can stand for a literal value or a name.
    pub fn is_literal(&self) -> (r: bool)
        ensures
            r == spec_is_literal(self@),
    {
        match self {
            Token::Int(_)
            | Token::String(_)
            | Token::True
            | Token::False
            | Token::Nil
            | Token::Identifier(_) => true,
            _ => false,
        }
    }
}


/// A copy of a token, equal to the original in the model.
pub fn token_clone(t: &Token) -> (r: Token)
    ensures
        r@ == t@,
{
    match t {
        Token::Illegal => Token::Illegal,
        Token::Identifier(name) => Token::Identifier(Identifier::new(name.inner())),
        Token::Int(i) => Token::Int(*i),
        Token::String(s) => Token::String(s.clone()),
        Token::True => Token::True,
        Token::False => Token::False,
        Token::Nil => Token::Nil,
        Token::Eq => Token::Eq,
        Token::NotEq => Token::NotEq,
        Token::Assign => Token::Assign,
        Token::Plus => Token::Plus,
        Token::Minus => Token::Minus,
        Token::Bang => Token::Bang,
        Token::Asterisk => Token::Asterisk,
        Token::Slash => Token::Slash,
        Token::Lt => Token::Lt,
        Token::Lte => Token::Lte,
        Token::Gt => Token::Gt,
        Token::Gte => Token::Gte,
        Token::Comma => Token::Comma,
        Token::Colon => Token::Colon,
        Token::Semicolon => Token::Semicolon,
        Token::LParen => Token::LParen,
        Token::RParen => Token::RParen,
        Token::LBrace => Token::LBrace,
        Token::RBrace => Token::RBrace,
        Token::LBracket => Token::LBracket,
        Token::RBracket => Token::RBracket,
        Token::Function => Token::Function,
        Token::Let => Token::Let,
        Token::If => Token::If,
        Token::Else => Token::Else,
        Token::Return => Token::Return,
    }
}

} // verus!
