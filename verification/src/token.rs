use vstd::prelude::*;

use crate::ast::InfixOperation;

verus! {

/// An identifier appearing in source text, carrying its name.
#[derive(Debug, PartialEq)]
pub struct Identifier(pub String);

impl View for Identifier {
    type V = Seq<char>;

    open spec fn view(&self) -> Seq<char> {
        self.0@
    }
}

impl Identifier {
    pub fn new(name: String) -> (r: Self)
        ensures
            r@ == name@,
    {
        Identifier(name)
    }

    pub fn new_str(name: &str) -> (r: Self)
        ensures
            r@ == name@,
    {
        Identifier(name.to_owned())
    }

    /// The identifier's name as an owned string.
    pub fn get_name(&self) -> (r: String)
        ensures
            r@ == self@,
    {
        self.0.clone()
    }
}

/// One lexical token of the language.
///
/// `Identifier` and `Int` carry payloads; every other kind is nullary.
#[derive(Debug)]
pub enum TokenType {
    Illegal,
    Identifier(Identifier),
    Int(i64),
    True,
    False,
    Nil,
    Eof,
    Eq,
    NotEq,
    Assign,
    Plus,
    Minus,
    Bang,
    Asterisk,
    Slash,
    Lt,
    Lte,
    Gt,
    Gte,
    Comma,
    Semicolon,
    LParen,
    RParen,
    LBrace,
    RBrace,
    Function,
    Let,
    If,
    Else,
    Return,
}

/// The mathematical image of a token: identifier names become character
/// sequences, so that two tokens with equal text are equal values.
pub enum TokenV {
    Illegal,
    Ident(Seq<char>),
    Int(i64),
    True,
    False,
    Nil,
    Eof,
    Eq,
    NotEq,
    Assign,
    Plus,
    Minus,
    Bang,
    Asterisk,
    Slash,
    Lt,
    Lte,
    Gt,
    Gte,
    Comma,
    Semicolon,
    LParen,
    RParen,
    LBrace,
    RBrace,
    Function,
    Let,
    If,
    Else,
    Return,
}

impl View for TokenType {
    type V = TokenV;

    open spec fn view(&self) -> TokenV {
        match self {
            TokenType::Illegal => TokenV::Illegal,
            TokenType::Identifier(id) => TokenV::Ident(id@),
            TokenType::Int(n) => TokenV::Int(*n),
            TokenType::True => TokenV::True,
            TokenType::False => TokenV::False,
            TokenType::Nil => TokenV::Nil,
            TokenType::Eof => TokenV::Eof,
            TokenType::Eq => TokenV::Eq,
            TokenType::NotEq => TokenV::NotEq,
            TokenType::Assign => TokenV::Assign,
            TokenType::Plus => TokenV::Plus,
            TokenType::Minus => TokenV::Minus,
            TokenType::Bang => TokenV::Bang,
            TokenType::Asterisk => TokenV::Asterisk,
            TokenType::Slash => TokenV::Slash,
            TokenType::Lt => TokenV::Lt,
            TokenType::Lte => TokenV::Lte,
            TokenType::Gt => TokenV::Gt,
            TokenType::Gte => TokenV::Gte,
            TokenType::Comma => TokenV::Comma,
            TokenType::Semicolon => TokenV::Semicolon,
            TokenType::LParen => TokenV::LParen,
            TokenType::RParen => TokenV::RParen,
            TokenType::LBrace => TokenV::LBrace,
            TokenType::RBrace => TokenV::RBrace,
            TokenType::Function => TokenV::Function,
            TokenType::Let => TokenV::Let,
            TokenType::If => TokenV::If,
            TokenType::Else => TokenV::Else,
            TokenType::Return => TokenV::Return,
        }
    }
}

/// The image of a token stream.
pub open spec fn toks_view(ts: Seq<TokenType>) -> Seq<TokenV> {
    ts.map_values(|t: TokenType| t@)
}

impl PartialEq for TokenType {
    fn eq(&self, other: &TokenType) -> (r: bool) {
        match (self, other) {
            (TokenType::Illegal, TokenType::Illegal) => true,
            (TokenType::Identifier(a), TokenType::Identifier(b)) => a.0 == b.0,
            (TokenType::Int(a), TokenType::Int(b)) => a == b,
            (TokenType::True, TokenType::True) => true,
            (TokenType::False, TokenType::False) => true,
            (TokenType::Nil, TokenType::Nil) => true,
            (TokenType::Eof, TokenType::Eof) => true,
            (TokenType::Eq, TokenType::Eq) => true,
            (TokenType::NotEq, TokenType::NotEq) => true,
            (TokenType::Assign, TokenType::Assign) => true,
            (TokenType::Plus, TokenType::Plus) => true,
            (TokenType::Minus, TokenType::Minus) => true,
            (TokenType::Bang, TokenType::Bang) => true,
            (TokenType::Asterisk, TokenType::Asterisk) => true,
            (TokenType::Slash, TokenType::Slash) => true,
            (TokenType::Lt, TokenType::Lt) => true,
            (TokenType::Lte, TokenType::Lte) => true,
            (TokenType::Gt, TokenType::Gt) => true,
            (TokenType::Gte, TokenType::Gte) => true,
            (TokenType::Comma, TokenType::Comma) => true,
            (TokenType::Semicolon, TokenType::Semicolon) => true,
            (TokenType::LParen, TokenType::LParen) => true,
            (TokenType::RParen, TokenType::RParen) => true,
            (TokenType::LBrace, TokenType::LBrace) => true,
            (TokenType::RBrace, TokenType::RBrace) => true,
            (TokenType::Function, TokenType::Function) => true,
            (TokenType::Let, TokenType::Let) => true,
            (TokenType::If, TokenType::If) => true,
            (TokenType::Else, TokenType::Else) => true,
            (TokenType::Return, TokenType::Return) => true,
            _ => false,
        }
    }
}

impl vstd::std_specs::cmp::PartialEqSpecImpl for TokenType {
    open spec fn obeys_eq_spec() -> bool {
        true
    }

    open spec fn eq_spec(&self, other: &TokenType) -> bool {
        self@ == other@
    }
}

impl TokenType {
    /// An owned copy with the same image.
    pub fn duplicate(&self) -> (r: TokenType)
        ensures
            r@ == self@,
    {
        match self {
            TokenType::Illegal => TokenType::Illegal,
            TokenType::Identifier(id) => TokenType::Identifier(id.duplicate()),
            TokenType::Int(n) => TokenType::Int(*n),
            TokenType::True => TokenType::True,
            TokenType::False => TokenType::False,
            TokenType::Nil => TokenType::Nil,
            TokenType::Eof => TokenType::Eof,
            TokenType::Eq => TokenType::Eq,
            TokenType::NotEq => TokenType::NotEq,
            TokenType::Assign => TokenType::Assign,
            TokenType::Plus => TokenType::Plus,
            TokenType::Minus => TokenType::Minus,
            TokenType::Bang => TokenType::Bang,
            TokenType::Asterisk => TokenType::Asterisk,
            TokenType::Slash => TokenType::Slash,
            TokenType::Lt => TokenType::Lt,
            TokenType::Lte => TokenType::Lte,
            TokenType::Gt => TokenType::Gt,
            TokenType::Gte => TokenType::Gte,
            TokenType::Comma => TokenType::Comma,
            TokenType::Semicolon => TokenType::Semicolon,
            TokenType::LParen => TokenType::LParen,
            TokenType::RParen => TokenType::RParen,
            TokenType::LBrace => TokenType::LBrace,
            TokenType::RBrace => TokenType::RBrace,
            TokenType::Function => TokenType::Function,
            TokenType::Let => TokenType::Let,
            TokenType::If => TokenType::If,
            TokenType::Else => TokenType::Else,
            TokenType::Return => TokenType::Return,
        }
    }

    /// The binding power of this token when it appears as an operator;
    /// zero for every token that starts no infix or call form.
    pub fn precedence(&self) -> (r: usize)
        ensures
            r == precedence_s(self@),
    {
        match self {
            TokenType::Eq | TokenType::NotEq => 2,
            TokenType::Gt | TokenType::Gte | TokenType::Lt | TokenType::Lte => 3,
            TokenType::Plus | TokenType::Minus => 4,
            TokenType::Slash | TokenType::Asterisk => 5,
            TokenType::LParen => 7,
            _ => 0,
        }
    }

    /// The infix operation this token denotes, if any.
    pub fn operation(&self) -> (r: Option<InfixOperation>)
        ensures
            r == operation_s(self@),
    {
        match self {
            TokenType::Plus => Some(InfixOperation::Add),
            TokenType::Minus => Some(InfixOperation::Sub),
            TokenType::Asterisk => Some(InfixOperation::Mul),
            TokenType::Slash => Some(InfixOperation::Div),
            TokenType::Eq => Some(InfixOperation::Eq),
            TokenType::NotEq => Some(InfixOperation::NotEq),
            TokenType::Lt => Some(InfixOperation::Lt),
            TokenType::Lte => Some(InfixOperation::Lte),
            TokenType::Gt => Some(InfixOperation::Gt),
            TokenType::Gte => Some(InfixOperation::Gte),
            _ => None,
        }
    }
}

/// Binding power of a token as an operator, on the token's image.
pub open spec fn precedence_s(t: TokenV) -> usize {
    match t {
        TokenV::Eq | TokenV::NotEq => 2usize,
        TokenV::Gt | TokenV::Gte | TokenV::Lt | TokenV::Lte => 3usize,
        TokenV::Plus | TokenV::Minus => 4usize,
        TokenV::Slash | TokenV::Asterisk => 5usize,
        TokenV::LParen => 7usize,
        _ => 0usize,
    }
}

/// Infix operation denoted by a token, on the token's image.
pub open spec fn operation_s(t: TokenV) -> Option<InfixOperation> {
    match t {
        TokenV::Plus => Some(InfixOperation::Add),
        TokenV::Minus => Some(InfixOperation::Sub),
        TokenV::Asterisk => Some(InfixOperation::Mul),
        TokenV::Slash => Some(InfixOperation::Div),
        TokenV::Eq => Some(InfixOperation::Eq),
        TokenV::NotEq => Some(InfixOperation::NotEq),
        TokenV::Lt => Some(InfixOperation::Lt),
        TokenV::Lte => Some(InfixOperation::Lte),
        TokenV::Gt => Some(InfixOperation::Gt),
        TokenV::Gte => Some(InfixOperation::Gte),
        _ => None,
    }
}

} // verus!
