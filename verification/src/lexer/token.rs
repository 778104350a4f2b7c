//! Tokens: what the tokenizer produces and the parser consumes.

use vstd::prelude::*;
use vstd::std_specs::cmp::PartialEqSpecImpl;
use crate::text::{decimal, signed_decimal, signed_to_string, unsigned_to_string};

verus! {

/// A range of byte offsets into the source, both ends included.
#[derive(Debug, Clone, Copy, PartialEq, Eq, Structural)]
pub struct Span {
    pub start: usize,
    pub end: usize,
}

/// The kind of a token, with the payload of identifiers and literals.
#[derive(Debug)]
pub enum TokenKind {
    Eof,
    Illegal,
    // Identifiers and literals
    Ident { name: String },
    Int(i64),
    String(String),
    // Operators
    Assign,
    Plus,
    Bang,
    Minus,
    Slash,
    Star,
    LT,
    GT,
    Eq,
    NotEq,
    // Delimiters
    LeftParen,
    RightParen,
    LeftBrace,
    RightBrace,
    Comma,
    SemiColon,
    // Keywords
    Let,
    Fn,
    True,
    False,
    If,
    Else,
    Return,
}

/// The mathematical value of a `TokenKind`: text is a sequence of
/// characters.
pub enum TokenKindView {
    Eof,
    Illegal,
    Ident { name: Seq<char> },
    Int(i64),
    String(Seq<char>),
    Assign,
    Plus,
    Bang,
    Minus,
    Slash,
    Star,
    LT,
    GT,
    Eq,
    NotEq,
    LeftParen,
    RightParen,
    LeftBrace,
    RightBrace,
    Comma,
    SemiColon,
    Let,
    Fn,
    True,
    False,
    If,
    Else,
    Return,
}

impl TokenKindView {
    /// How a token kind is written in messages and in rendered syntax
    /// trees.
    pub open spec fn text(self) -> Seq<char> {
        match self {
            TokenKindView::Eof => "EOF"@,
            TokenKindView::Illegal => "ILLEGAL"@,
            TokenKindView::Ident { name } => name,
            TokenKindView::Int(value) => signed_decimal(value as int),
            TokenKindView::String(text) => text,
            TokenKindView::Assign => "="@,
            TokenKindView::Plus => "+"@,
            TokenKindView::Bang => "!"@,
            TokenKindView::Minus => "-"@,
            TokenKindView::Slash => "/"@,
            TokenKindView::Star => "*"@,
            TokenKindView::LT => "<"@,
            TokenKindView::GT => ">"@,
            TokenKindView::Eq => "=="@,
            TokenKindView::NotEq => "!="@,
            TokenKindView::LeftParen => "("@,
            TokenKindView::RightParen => ")"@,
            TokenKindView::LeftBrace => "{"@,
            TokenKindView::RightBrace => "}"@,
            TokenKindView::Comma => ","@,
            TokenKindView::SemiColon => ";"@,
            TokenKindView::Let => "let"@,
            TokenKindView::Fn => "fn"@,
            TokenKindView::True => "true"@,
            TokenKindView::False => "false"@,
            TokenKindView::If => "if"@,
            TokenKindView::Else => "else"@,
            TokenKindView::Return => "return"@,
        }
    }
}

impl View for TokenKind {
    type V = TokenKindView;

    open spec fn view(&self) -> TokenKindView {
        match self {
            TokenKind::Eof => TokenKindView::Eof,
            TokenKind::Illegal => TokenKindView::Illegal,
            TokenKind::Ident { name } => TokenKindView::Ident { name: name@ },
            TokenKind::Int(value) => TokenKindView::Int(*value),
            TokenKind::String(text) => TokenKindView::String(text@),
            TokenKind::Assign => TokenKindView::Assign,
            TokenKind::Plus => TokenKindView::Plus,
            TokenKind::Bang => TokenKindView::Bang,
            TokenKind::Minus => TokenKindView::Minus,
            TokenKind::Slash => TokenKindView::Slash,
            TokenKind::Star => TokenKindView::Star,
            TokenKind::LT => TokenKindView::LT,
            TokenKind::GT => TokenKindView::GT,
            TokenKind::Eq => TokenKindView::Eq,
            TokenKind::NotEq => TokenKindView::NotEq,
            TokenKind::LeftParen => TokenKindView::LeftParen,
            TokenKind::RightParen => TokenKindView::RightParen,
            TokenKind::LeftBrace => TokenKindView::LeftBrace,
            TokenKind::RightBrace => TokenKindView::RightBrace,
            TokenKind::Comma => TokenKindView::Comma,
            TokenKind::SemiColon => TokenKindView::SemiColon,
            TokenKind::Let => TokenKindView::Let,
            TokenKind::Fn => TokenKindView::Fn,
            TokenKind::True => TokenKindView::True,
            TokenKind::False => TokenKindView::False,
            TokenKind::If => TokenKindView::If,
            TokenKind::Else => TokenKindView::Else,
            TokenKind::Return => TokenKindView::Return,
        }
    }
}

impl Clone for TokenKind {
    fn clone(&self) -> (copy: TokenKind)
        ensures
            copy@ == self@,
    {
        match self {
            TokenKind::Eof => TokenKind::Eof,
            TokenKind::Illegal => TokenKind::Illegal,
            TokenKind::Ident { name } => TokenKind::Ident { name: name.clone() },
            TokenKind::Int(value) => TokenKind::Int(*value),
            TokenKind::String(text) => TokenKind::String(text.clone()),
            TokenKind::Assign => TokenKind::Assign,
            TokenKind::Plus => TokenKind::Plus,
            TokenKind::Bang => TokenKind::Bang,
            TokenKind::Minus => TokenKind::Minus,
            TokenKind::Slash => TokenKind::Slash,
            TokenKind::Star => TokenKind::Star,
            TokenKind::LT => TokenKind::LT,
            TokenKind::GT => TokenKind::GT,
            TokenKind::Eq => TokenKind::Eq,
            TokenKind::NotEq => TokenKind::NotEq,
            TokenKind::LeftParen => TokenKind::LeftParen,
            TokenKind::RightParen => TokenKind::RightParen,
            TokenKind::LeftBrace => TokenKind::LeftBrace,
            TokenKind::RightBrace => TokenKind::RightBrace,
            TokenKind::Comma => TokenKind::Comma,
            TokenKind::SemiColon => TokenKind::SemiColon,
            TokenKind::Let => TokenKind::Let,
            TokenKind::Fn => TokenKind::Fn,
            TokenKind::True => TokenKind::True,
            TokenKind::False => TokenKind::False,
            TokenKind::If => TokenKind::If,
            TokenKind::Else => TokenKind::Else,
            TokenKind::Return => TokenKind::Return,
        }
    }
}

impl PartialEq for TokenKind {
    fn eq(&self, other: &TokenKind) -> (same: bool) {
        match (self, other) {
            (TokenKind::Eof, TokenKind::Eof) => true,
            (TokenKind::Illegal, TokenKind::Illegal) => true,
            (TokenKind::Ident { name: a }, TokenKind::Ident { name: b }) => *a == *b,
            (TokenKind::Int(a), TokenKind::Int(b)) => *a == *b,
            (TokenKind::String(a), TokenKind::String(b)) => *a == *b,
            (TokenKind::Assign, TokenKind::Assign) => true,
            (TokenKind::Plus, TokenKind::Plus) => true,
            (TokenKind::Bang, TokenKind::Bang) => true,
            (TokenKind::Minus, TokenKind::Minus) => true,
            (TokenKind::Slash, TokenKind::Slash) => true,
            (TokenKind::Star, TokenKind::Star) => true,
            (TokenKind::LT, TokenKind::LT) => true,
            (TokenKind::GT, TokenKind::GT) => true,
            (TokenKind::Eq, TokenKind::Eq) => true,
            (TokenKind::NotEq, TokenKind::NotEq) => true,
            (TokenKind::LeftParen, TokenKind::LeftParen) => true,
            (TokenKind::RightParen, TokenKind::RightParen) => true,
            (TokenKind::LeftBrace, TokenKind::LeftBrace) => true,
            (TokenKind::RightBrace, TokenKind::RightBrace) => true,
            (TokenKind::Comma, TokenKind::Comma) => true,
            (TokenKind::SemiColon, TokenKind::SemiColon) => true,
            (TokenKind::Let, TokenKind::Let) => true,
            (TokenKind::Fn, TokenKind::Fn) => true,
            (TokenKind::True, TokenKind::True) => true,
            (TokenKind::False, TokenKind::False) => true,
            (TokenKind::If, TokenKind::If) => true,
            (TokenKind::Else, TokenKind::Else) => true,
            (TokenKind::Return, TokenKind::Return) => true,
            _ => false,
        }
    }
}

impl PartialEqSpecImpl for TokenKind {
    open spec fn obeys_eq_spec() -> bool {
        true
    }

    open spec fn eq_spec(&self, other: &TokenKind) -> bool {
        self@ == other@
    }
}

impl TokenKind {
    /// The text of this kind: the symbol of an operator or delimiter, the
    /// word of a keyword, the name of an identifier, the numeral of an
    /// integer.
    pub fn to_string(&self) -> (text: String)
        ensures
            text@ == self@.text(),
    {
        match self {
            TokenKind::Eof => "EOF".to_string(),
            TokenKind::Illegal => "ILLEGAL".to_string(),
            TokenKind::Ident { name } => name.clone(),
            TokenKind::Int(value) => signed_to_string(*value),
            TokenKind::String(text) => text.clone(),
            TokenKind::Assign => "=".to_string(),
            TokenKind::Plus => "+".to_string(),
            TokenKind::Bang => "!".to_string(),
            TokenKind::Minus => "-".to_string(),
            TokenKind::Slash => "/".to_string(),
            TokenKind::Star => "*".to_string(),
            TokenKind::LT => "<".to_string(),
            TokenKind::GT => ">".to_string(),
            TokenKind::Eq => "==".to_string(),
            TokenKind::NotEq => "!=".to_string(),
            TokenKind::LeftParen => "(".to_string(),
            TokenKind::RightParen => ")".to_string(),
            TokenKind::LeftBrace => "{".to_string(),
            TokenKind::RightBrace => "}".to_string(),
            TokenKind::Comma => ",".to_string(),
            TokenKind::SemiColon => ";".to_string(),
            TokenKind::Let => "let".to_string(),
            TokenKind::Fn => "fn".to_string(),
            TokenKind::True => "true".to_string(),
            TokenKind::False => "false".to_string(),
            TokenKind::If => "if".to_string(),
            TokenKind::Else => "else".to_string(),
            TokenKind::Return => "return".to_string(),
        }
    }
}

/// A token: its kind and where it stands in the source.
#[derive(Debug)]
pub struct Token {
    pub kind: TokenKind,
    pub span: Span,
}

/// The mathematical value of a `Token`.
pub struct TokenView {
    pub kind: TokenKindView,
    pub span: Span,
}

impl TokenView {
    /// How a token is written for a reader: its span, then its kind.
    pub open spec fn text(self) -> Seq<char> {
        "start: "@ + decimal(self.span.start as nat) + " end: "@ + decimal(self.span.end as nat)
            + ", kind: "@ + self.kind.text()
    }
}

impl View for Token {
    type V = TokenView;

    open spec fn view(&self) -> TokenView {
        TokenView { kind: self.kind@, span: self.span }
    }
}

impl Clone for Token {
    fn clone(&self) -> (copy: Token)
        ensures
            copy@ == self@,
    {
        Token { kind: self.kind.clone(), span: self.span }
    }
}

impl PartialEq for Token {
    fn eq(&self, other: &Token) -> (same: bool) {
        self.kind == other.kind && self.span.start == other.span.start && self.span.end
            == other.span.end
    }
}

impl PartialEqSpecImpl for Token {
    open spec fn obeys_eq_spec() -> bool {
        true
    }

    open spec fn eq_spec(&self, other: &Token) -> bool {
        self@ == other@
    }
}

impl Token {
    /// A token of kind `kind` over the bytes from `start` through `end`.
    pub fn new(kind: TokenKind, start: usize, end: usize) -> (token: Token)
        ensures
            token.kind == kind,
            token.span == (Span { start, end }),
    {
        Token { kind, span: Span { start, end } }
    }

    /// The token written out for a reader.
    pub fn to_string(&self) -> (text: String)
        ensures
            text@ == self@.text(),
    {
        let mut text = "start: ".to_string();
        let start = unsigned_to_string(self.span.start);
        text.append(start.as_str());
        text.append(" end: ");
        let end = unsigned_to_string(self.span.end);
        text.append(end.as_str());
        text.append(", kind: ");
        let kind = self.kind.to_string();
        text.append(kind.as_str());
        text
    }
}

/// The kind of the word `identifier`: a keyword where it is one, an
/// identifier of that name otherwise.
pub open spec fn keyword_or_ident(identifier: Seq<char>) -> TokenKindView {
    if identifier == "let"@ {
        TokenKindView::Let
    } else if identifier == "fn"@ {
        TokenKindView::Fn
    } else if identifier == "if"@ {
        TokenKindView::If
    } else if identifier == "else"@ {
        TokenKindView::Else
    } else if identifier == "true"@ {
        TokenKindView::True
    } else if identifier == "false"@ {
        TokenKindView::False
    } else if identifier == "return"@ {
        TokenKindView::Return
    } else {
        TokenKindView::Ident { name: identifier }
    }
}

/// Tells keywords from identifiers by exact match.
pub fn lookup_identifier(identifier: &str) -> (kind: TokenKind)
    ensures
        kind@ == keyword_or_ident(identifier@),
{
    let name = identifier.to_string();
    if name == "let".to_string() {
        TokenKind::Let
    } else if name == "fn".to_string() {
        TokenKind::Fn
    } else if name == "if".to_string() {
        TokenKind::If
    } else if name == "else".to_string() {
        TokenKind::Else
    } else if name == "true".to_string() {
        TokenKind::True
    } else if name == "false".to_string() {
        TokenKind::False
    } else if name == "return".to_string() {
        TokenKind::Return
    } else {
        TokenKind::Ident { name }
    }
}

} // verus!
