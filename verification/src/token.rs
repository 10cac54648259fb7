//! Tokens: the classified lexical units the tokenizer hands to the parser.
//! `TokenKind` is the executable value; `TokenView` is its mathematical
//! model, with string payloads as character sequences.

use vstd::prelude::*;
use crate::numeral::int_repr;

verus! {

/// The mathematical model of a token kind: identifier and string payloads
/// become character sequences, integer payloads become unbounded integers.
pub enum TokenView {
    Illegal,
    Eof,
    Ident(Seq<char>),
    Int(int),
    Str(Seq<char>),
    Assign,
    Plus,
    Minus,
    Bang,
    Asterisk,
    Slash,
    LessThan,
    GreaterThan,
    Equal,
    NotEqual,
    Comma,
    Colon,
    Semicolon,
    Lparen,
    Rparen,
    Lbrace,
    Rbrace,
    Lbracket,
    Rbracket,
    Function,
    Let,
    True,
    False,
    If,
    Else,
    Return,
}

/// A token's classification, carrying the payload for identifiers, integer
/// literals and string literals.
#[derive(Debug, PartialEq, Eq)]
pub enum TokenKind {
    Illegal,
    Eof,
    Ident(String),
    Int(i64),
    Str(String),
    Assign,
    Plus,
    Minus,
    Bang,
    Asterisk,
    Slash,
    LessThan,
    GreaterThan,
    Equal,
    NotEqual,
    Comma,
    Colon,
    Semicolon,
    Lparen,
    Rparen,
    Lbrace,
    Rbrace,
    Lbracket,
    Rbracket,
    Function,
    Let,
    True,
    False,
    If,
    Else,
    Return,
}

impl View for TokenKind {
    type V = TokenView;

    open spec fn view(&self) -> TokenView {
        match self {
            TokenKind::Illegal => TokenView::Illegal,
            TokenKind::Eof => TokenView::Eof,
            TokenKind::Ident(s) => TokenView::Ident(s@),
            TokenKind::Int(n) => TokenView::Int(*n as int),
            TokenKind::Str(s) => TokenView::Str(s@),
            TokenKind::Assign => TokenView::Assign,
            TokenKind::Plus => TokenView::Plus,
            TokenKind::Minus => TokenView::Minus,
            TokenKind::Bang => TokenView::Bang,
            TokenKind::Asterisk => TokenView::Asterisk,
            TokenKind::Slash => TokenView::Slash,
            TokenKind::LessThan => TokenView::LessThan,
            TokenKind::GreaterThan => TokenView::GreaterThan,
            TokenKind::Equal => TokenView::Equal,
            TokenKind::NotEqual => TokenView::NotEqual,
            TokenKind::Comma => TokenView::Comma,
            TokenKind::Colon => TokenView::Colon,
            TokenKind::Semicolon => TokenView::Semicolon,
            TokenKind::Lparen => TokenView::Lparen,
            TokenKind::Rparen => TokenView::Rparen,
            TokenKind::Lbrace => TokenView::Lbrace,
            TokenKind::Rbrace => TokenView::Rbrace,
            TokenKind::Lbracket => TokenView::Lbracket,
            TokenKind::Rbracket => TokenView::Rbracket,
            TokenKind::Function => TokenView::Function,
            TokenKind::Let => TokenView::Let,
            TokenKind::True => TokenView::True,
            TokenKind::False => TokenView::False,
            TokenKind::If => TokenView::If,
            TokenKind::Else => TokenView::Else,
            TokenKind::Return => TokenView::Return,
        }
    }
}

impl Clone for TokenKind {
    /// Clones the kind; the copy is equal to the original.
    fn clone(&self) -> (r: TokenKind)
        ensures
            r == *self,
    {
        match self {
            TokenKind::Illegal => TokenKind::Illegal,
            TokenKind::Eof => TokenKind::Eof,
            TokenKind::Ident(s) => TokenKind::Ident(s.clone()),
            TokenKind::Int(n) => TokenKind::Int(*n),
            TokenKind::Str(s) => TokenKind::Str(s.clone()),
            TokenKind::Assign => TokenKind::Assign,
            TokenKind::Plus => TokenKind::Plus,
            TokenKind::Minus => TokenKind::Minus,
            TokenKind::Bang => TokenKind::Bang,
            TokenKind::Asterisk => TokenKind::Asterisk,
            TokenKind::Slash => TokenKind::Slash,
            TokenKind::LessThan => TokenKind::LessThan,
            TokenKind::GreaterThan => TokenKind::GreaterThan,
            TokenKind::Equal => TokenKind::Equal,
            TokenKind::NotEqual => TokenKind::NotEqual,
            TokenKind::Comma => TokenKind::Comma,
            TokenKind::Colon => TokenKind::Colon,
            TokenKind::Semicolon => TokenKind::Semicolon,
            TokenKind::Lparen => TokenKind::Lparen,
            TokenKind::Rparen => TokenKind::Rparen,
            TokenKind::Lbrace => TokenKind::Lbrace,
            TokenKind::Rbrace => TokenKind::Rbrace,
            TokenKind::Lbracket => TokenKind::Lbracket,
            TokenKind::Rbracket => TokenKind::Rbracket,
            TokenKind::Function => TokenKind::Function,
            TokenKind::Let => TokenKind::Let,
            TokenKind::True => TokenKind::True,
            TokenKind::False => TokenKind::False,
            TokenKind::If => TokenKind::If,
            TokenKind::Else => TokenKind::Else,
            TokenKind::Return => TokenKind::Return,
        }
    }
}

/// The literal text of a token kind: the lexeme it stands for. Identifiers
/// and string literals carry their own text, integer literals render in
/// decimal, end-of-input is empty.
pub open spec fn literal_of(t: TokenView) -> Seq<char> {
    match t {
        TokenView::Illegal => "ILLEGAL"@,
        TokenView::Eof => ""@,
        TokenView::Ident(s) => s,
        TokenView::Int(n) => int_repr(n),
        TokenView::Str(s) => s,
        TokenView::Assign => "="@,
        TokenView::Plus => "+"@,
        TokenView::Minus => "-"@,
        TokenView::Bang => "!"@,
        TokenView::Asterisk => "*"@,
        TokenView::Slash => "/"@,
        TokenView::LessThan => "<"@,
        TokenView::GreaterThan => ">"@,
        TokenView::Equal => "=="@,
        TokenView::NotEqual => "!="@,
        TokenView::Comma => ","@,
        TokenView::Colon => ":"@,
        TokenView::Semicolon => ";"@,
        TokenView::Lparen => "("@,
        TokenView::Rparen => ")"@,
        TokenView::Lbrace => "{"@,
        TokenView::Rbrace => "}"@,
        TokenView::Lbracket => "["@,
        TokenView::Rbracket => "]"@,
        TokenView::Function => "fn"@,
        TokenView::Let => "let"@,
        TokenView::True => "true"@,
        TokenView::False => "false"@,
        TokenView::If => "if"@,
        TokenView::Else => "else"@,
        TokenView::Return => "return"@,
    }
}

impl TokenKind {
    /// The literal text of this kind, as a freshly allocated string.
    pub fn literal(&self) -> (r: String)
        ensures
            r@ == literal_of(self@),
    {
        match self {
            TokenKind::Illegal => String::from_str("ILLEGAL"),
            TokenKind::Eof => String::from_str(""),
            TokenKind::Ident(s) => s.clone(),
            TokenKind::Int(n) => crate::numeral::i64_to_string(*n),
            TokenKind::Str(s) => s.clone(),
            TokenKind::Assign => String::from_str("="),
            TokenKind::Plus => String::from_str("+"),
            TokenKind::Minus => String::from_str("-"),
            TokenKind::Bang => String::from_str("!"),
            TokenKind::Asterisk => String::from_str("*"),
            TokenKind::Slash => String::from_str("/"),
            TokenKind::LessThan => String::from_str("<"),
            TokenKind::GreaterThan => String::from_str(">"),
            TokenKind::Equal => String::from_str("=="),
            TokenKind::NotEqual => String::from_str("!="),
            TokenKind::Comma => String::from_str(","),
            TokenKind::Colon => String::from_str(":"),
            TokenKind::Semicolon => String::from_str(";"),
            TokenKind::Lparen => String::from_str("("),
            TokenKind::Rparen => String::from_str(")"),
            TokenKind::Lbrace => String::from_str("{"),
            TokenKind::Rbrace => String::from_str("}"),
            TokenKind::Lbracket => String::from_str("["),
            TokenKind::Rbracket => String::from_str("]"),
            TokenKind::Function => String::from_str("fn"),
            TokenKind::Let => String::from_str("let"),
            TokenKind::True => String::from_str("true"),
            TokenKind::False => String::from_str("false"),
            TokenKind::If => String::from_str("if"),
            TokenKind::Else => String::from_str("else"),
            TokenKind::Return => String::from_str("return"),
        }
    }

    /// Whether this kind and `other` are the same classification with the
    /// same payload.
    #[verifier::rlimit(60)]
    pub fn same_as(&self, other: &TokenKind) -> (r: bool)
        ensures
            r == (self@ == other@),
    {
        match (self, other) {
            (TokenKind::Illegal, TokenKind::Illegal) => true,
            (TokenKind::Eof, TokenKind::Eof) => true,
            (TokenKind::Ident(a), TokenKind::Ident(b)) => *a == *b,
            (TokenKind::Int(a), TokenKind::Int(b)) => *a == *b,
            (TokenKind::Str(a), TokenKind::Str(b)) => *a == *b,
            (TokenKind::Assign, TokenKind::Assign) => true,
            (TokenKind::Plus, TokenKind::Plus) => true,
            (TokenKind::Minus, TokenKind::Minus) => true,
            (TokenKind::Bang, TokenKind::Bang) => true,
            (TokenKind::Asterisk, TokenKind::Asterisk) => true,
            (TokenKind::Slash, TokenKind::Slash) => true,
            (TokenKind::LessThan, TokenKind::LessThan) => true,
            (TokenKind::GreaterThan, TokenKind::GreaterThan) => true,
            (TokenKind::Equal, TokenKind::Equal) => true,
            (TokenKind::NotEqual, TokenKind::NotEqual) => true,
            (TokenKind::Comma, TokenKind::Comma) => true,
            (TokenKind::Colon, TokenKind::Colon) => true,
            (TokenKind::Semicolon, TokenKind::Semicolon) => true,
            (TokenKind::Lparen, TokenKind::Lparen) => true,
            (TokenKind::Rparen, TokenKind::Rparen) => true,
            (TokenKind::Lbrace, TokenKind::Lbrace) => true,
            (TokenKind::Rbrace, TokenKind::Rbrace) => true,
            (TokenKind::Lbracket, TokenKind::Lbracket) => true,
            (TokenKind::Rbracket, TokenKind::Rbracket) => true,
            (TokenKind::Function, TokenKind::Function) => true,
            (TokenKind::Let, TokenKind::Let) => true,
            (TokenKind::True, TokenKind::True) => true,
            (TokenKind::False, TokenKind::False) => true,
            (TokenKind::If, TokenKind::If) => true,
            (TokenKind::Else, TokenKind::Else) => true,
            (TokenKind::Return, TokenKind::Return) => true,
            _ => false,
        }
    }
}

/// A token: its kind together with the payload the kind carries.
#[derive(Debug, PartialEq, Eq)]
pub struct Token {
    pub kind: TokenKind,
}

impl View for Token {
    type V = TokenView;

    open spec fn view(&self) -> TokenView {
        self.kind@
    }
}

impl Clone for Token {
    /// Clones the token; the copy is equal to the original.
    fn clone(&self) -> (r: Token)
        ensures
            r == *self,
    {
        Token { kind: self.kind.clone() }
    }
}

impl Token {
    /// Wraps a kind as a token.
    pub fn new(kind: TokenKind) -> (t: Token)
        ensures
            t.kind == kind,
    {
        Token { kind }
    }
}

} // verus!
