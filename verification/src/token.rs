//! Tokens, their spans in the source text and their printed forms.
use vstd::prelude::*;
use vstd::string::*;

use crate::text::{decimal, spec_decimal};

verus! {

/// The tokens of the language.
#[derive(Debug, PartialEq)]
pub enum Token {
    // Punctuation
    LParen,
    RParen,
    LCurly,
    RCurly,
    Semi,
    Comma,
    Colon,
    // Operators
    Plus,
    Minus,
    Assignment,
    Equality,
    Grt,
    Arrow,
    // Keywords
    Int,
    Let,
    Function,
    While,
    If,
    ElseIf,
    Else,
    Return,
    // Terminals
    Num(String),
    Id(String),
    // End
    Eof,
}

/// The variant of a [`Token`], without the text that numbers and identifiers carry.
#[derive(Debug, PartialEq, Eq, Structural, Clone, Copy)]
pub enum TokenKind {
    LParen,
    RParen,
    LCurly,
    RCurly,
    Semi,
    Comma,
    Colon,
    Plus,
    Minus,
    Assignment,
    Equality,
    Grt,
    Arrow,
    Int,
    Let,
    Function,
    While,
    If,
    ElseIf,
    Else,
    Return,
    Num,
    Id,
    Eof,
}

impl Token {
    pub open spec fn spec_kind(self) -> TokenKind {
        match self {
            Token::LParen => TokenKind::LParen,
            Token::RParen => TokenKind::RParen,
            Token::LCurly => TokenKind::LCurly,
            Token::RCurly => TokenKind::RCurly,
            Token::Semi => TokenKind::Semi,
            Token::Comma => TokenKind::Comma,
            Token::Colon => TokenKind::Colon,
            Token::Plus => TokenKind::Plus,
            Token::Minus => TokenKind::Minus,
            Token::Assignment => TokenKind::Assignment,
            Token::Equality => TokenKind::Equality,
            Token::Grt => TokenKind::Grt,
            Token::Arrow => TokenKind::Arrow,
            Token::Int => TokenKind::Int,
            Token::Let => TokenKind::Let,
            Token::Function => TokenKind::Function,
            Token::While => TokenKind::While,
            Token::If => TokenKind::If,
            Token::ElseIf => TokenKind::ElseIf,
            Token::Else => TokenKind::Else,
            Token::Return => TokenKind::Return,
            Token::Num(_) => TokenKind::Num,
            Token::Id(_) => TokenKind::Id,
            Token::Eof => TokenKind::Eof,
        }
    }

    /// The text that a number or an identifier carries; empty for every other token.
    pub open spec fn payload(self) -> Seq<char> {
        match self {
            Token::Num(s) => s@,
            Token::Id(s) => s@,
            _ => Seq::empty(),
        }
    }

    /// Two tokens are equal when they are the same variant carrying the same text.
    pub open spec fn same(self, other: Token) -> bool {
        self.spec_kind() == other.spec_kind() && self.payload() == other.payload()
    }

    /// How the token is written in source text (`EOF` for the end of input).
    pub open spec fn text(self) -> Seq<char> {
        match self {
            Token::LParen => "("@,
            Token::RParen => ")"@,
            Token::LCurly => "{"@,
            Token::RCurly => "}"@,
            Token::Semi => ";"@,
            Token::Comma => ","@,
            Token::Colon => ":"@,
            Token::Plus => "+"@,
            Token::Minus => "-"@,
            Token::Assignment => ":="@,
            Token::Equality => "=="@,
            Token::Grt => ">"@,
            Token::Arrow => "->"@,
            Token::Int => "int"@,
            Token::Let => "let"@,
            Token::Function => "fn"@,
            Token::While => "while"@,
            Token::If => "if"@,
            Token::ElseIf => "elif"@,
            Token::Else => "else"@,
            Token::Return => "return"@,
            Token::Num(n) => n@,
            Token::Id(id) => id@,
            Token::Eof => "EOF"@,
        }
    }

    pub fn kind(&self) -> (k: TokenKind)
        ensures
            k == self.spec_kind(),
    {
        match self {
            Token::LParen => TokenKind::LParen,
            Token::RParen => TokenKind::RParen,
            Token::LCurly => TokenKind::LCurly,
            Token::RCurly => TokenKind::RCurly,
            Token::Semi => TokenKind::Semi,
            Token::Comma => TokenKind::Comma,
            Token::Colon => TokenKind::Colon,
            Token::Plus => TokenKind::Plus,
            Token::Minus => TokenKind::Minus,
            Token::Assignment => TokenKind::Assignment,
            Token::Equality => TokenKind::Equality,
            Token::Grt => TokenKind::Grt,
            Token::Arrow => TokenKind::Arrow,
            Token::Int => TokenKind::Int,
            Token::Let => TokenKind::Let,
            Token::Function => TokenKind::Function,
            Token::While => TokenKind::While,
            Token::If => TokenKind::If,
            Token::ElseIf => TokenKind::ElseIf,
            Token::Else => TokenKind::Else,
            Token::Return => TokenKind::Return,
            Token::Num(_) => TokenKind::Num,
            Token::Id(_) => TokenKind::Id,
            Token::Eof => TokenKind::Eof,
        }
    }

    pub fn is_eof(&self) -> (b: bool)
        ensures
            b == (*self is Eof),
    {
        match self {
            Token::Eof => true,
            _ => false,
        }
    }

    /// A copy of the token.
    pub fn copy(&self) -> (t: Token)
        ensures
            t == *self,
    {
        match self {
            Token::LParen => Token::LParen,
            Token::RParen => Token::RParen,
            Token::LCurly => Token::LCurly,
            Token::RCurly => Token::RCurly,
            Token::Semi => Token::Semi,
            Token::Comma => Token::Comma,
            Token::Colon => Token::Colon,
            Token::Plus => Token::Plus,
            Token::Minus => Token::Minus,
            Token::Assignment => Token::Assignment,
            Token::Equality => Token::Equality,
            Token::Grt => Token::Grt,
            Token::Arrow => Token::Arrow,
            Token::Int => Token::Int,
            Token::Let => Token::Let,
            Token::Function => Token::Function,
            Token::While => Token::While,
            Token::If => Token::If,
            Token::ElseIf => Token::ElseIf,
            Token::Else => Token::Else,
            Token::Return => Token::Return,
            Token::Num(n) => Token::Num(n.clone()),
            Token::Id(id) => Token::Id(id.clone()),
            Token::Eof => Token::Eof,
        }
    }

    /// Whether two tokens are the same variant with the same text.
    pub fn equals(&self, other: &Token) -> (b: bool)
        ensures
            b == self.same(*other),
    {
        let k1 = self.kind();
        let k2 = other.kind();
        if k1 != k2 {
            return false;
        }
        match (self, other) {
            (Token::Num(a), Token::Num(b)) => a.eq(b),
            (Token::Id(a), Token::Id(b)) => a.eq(b),
            _ => {
                assert(self.payload() == Seq::<char>::empty());
                assert(other.payload() == Seq::<char>::empty());
                true
            },
        }
    }

    /// How the token is written in source text.
    pub fn to_string(&self) -> (s: String)
        ensures
            s@ == self.text(),
    {
        match self {
            Token::LParen => String::from_str("("),
            Token::RParen => String::from_str(")"),
            Token::LCurly => String::from_str("{"),
            Token::RCurly => String::from_str("}"),
            Token::Semi => String::from_str(";"),
            Token::Comma => String::from_str(","),
            Token::Colon => String::from_str(":"),
            Token::Plus => String::from_str("+"),
            Token::Minus => String::from_str("-"),
            Token::Assignment => String::from_str(":="),
            Token::Equality => String::from_str("=="),
            Token::Grt => String::from_str(">"),
            Token::Arrow => String::from_str("->"),
            Token::Int => String::from_str("int"),
            Token::Let => String::from_str("let"),
            Token::Function => String::from_str("fn"),
            Token::While => String::from_str("while"),
            Token::If => String::from_str("if"),
            Token::ElseIf => String::from_str("elif"),
            Token::Else => String::from_str("else"),
            Token::Return => String::from_str("return"),
            Token::Num(n) => n.clone(),
            Token::Id(id) => id.clone(),
            Token::Eof => String::from_str("EOF"),
        }
    }
}

/// A token together with the stretch of source text it was read from.
#[derive(Debug, PartialEq)]
pub struct SyntaxToken {
    pub token: Token,
    pub span: Span,
}

impl SyntaxToken {
    pub open spec fn text(self) -> Seq<char> {
        "Token: "@ + self.token.text() + "\n"@ + self.span.text()
    }

    /// A copy of the syntax token.
    pub fn copy(&self) -> (t: SyntaxToken)
        ensures
            t == *self,
    {
        SyntaxToken { token: self.token.copy(), span: self.span.copy() }
    }

    /// The token followed by its span, one part to a line.
    pub fn to_string(&self) -> (s: String)
        ensures
            s@ == self.text(),
    {
        let mut s = String::from_str("Token: ");
        let t = self.token.to_string();
        s.append(t.as_str());
        s.append("\n");
        let sp = self.span.to_string();
        s.append(sp.as_str());
        s
    }
}

/// The stretch of source text between two locations.
#[derive(Debug, PartialEq)]
pub struct Span {
    pub start: Location,
    pub end: Location,
}

impl Span {
    pub open spec fn text(self) -> Seq<char> {
        "Start:\n    "@ + self.start.text() + "\nEnd:\n    "@ + self.end.text()
    }

    /// A copy of the span.
    pub fn copy(&self) -> (s: Span)
        ensures
            s == *self,
    {
        Span { start: self.start, end: self.end }
    }

    pub fn to_string(&self) -> (s: String)
        ensures
            s@ == self.text(),
    {
        let mut s = String::from_str("Start:\n    ");
        let a = self.start.to_string();
        s.append(a.as_str());
        s.append("\nEnd:\n    ");
        let b = self.end.to_string();
        s.append(b.as_str());
        s
    }
}

/// A byte position in the source together with its line and column, both counted from 1.
#[derive(Debug, PartialEq, Copy, Clone)]
pub struct Location {
    /// byte offset into the source text
    pub index: usize,
    /// current line; a `\n` starts the next one
    pub line: usize,
    /// current position in the line
    pub col: usize,
}

impl Location {
    /// The location of the first character of a source text.
    pub open spec fn start() -> Location {
        Location { index: 0, line: 1, col: 1 }
    }

    pub open spec fn text(self) -> Seq<char> {
        "Line: "@ + spec_decimal(self.line as nat) + ", Char: "@ + spec_decimal(self.col as nat)
    }

    pub fn new() -> (l: Self)
        ensures
            l == Location::start(),
    {
        Self { index: 0, line: 1, col: 1 }
    }

    pub fn to_string(&self) -> (s: String)
        ensures
            s@ == self.text(),
    {
        let mut s = String::from_str("Line: ");
        let l = decimal(self.line);
        s.append(l.as_str());
        s.append(", Char: ");
        let c = decimal(self.col);
        s.append(c.as_str());
        s
    }
}

impl Clone for Token {
    fn clone(&self) -> (r: Self)
        ensures
            r == *self,
    {
        self.copy()
    }
}

impl Clone for SyntaxToken {
    fn clone(&self) -> (r: Self)
        ensures
            r == *self,
    {
        self.copy()
    }
}

impl Clone for Span {
    fn clone(&self) -> (r: Self)
        ensures
            r == *self,
    {
        self.copy()
    }
}

impl Default for Token {
    /// The end of input.
    fn default() -> (t: Self)
        ensures
            t == Token::Eof,
    {
        Token::Eof
    }
}

impl Default for Location {
    /// The location with every count at zero.
    fn default() -> (l: Self)
        ensures
            l == (Location { index: 0, line: 0, col: 0 }),
    {
        Location { index: 0, line: 0, col: 0 }
    }
}

impl Default for Span {
    /// The span from the zero location to itself.
    fn default() -> (s: Self)
        ensures
            s == (Span { start: Location { index: 0, line: 0, col: 0 }, end: Location { index: 0, line: 0, col: 0 } }),
    {
        Span { start: Location::default(), end: Location::default() }
    }
}

impl Default for SyntaxToken {
    /// The end of input over the default span.
    fn default() -> (st: Self)
        ensures
            st == (SyntaxToken {
                token: Token::Eof,
                span: Span { start: Location { index: 0, line: 0, col: 0 }, end: Location { index: 0, line: 0, col: 0 } },
            }),
    {
        SyntaxToken { token: Token::default(), span: Span::default() }
    }
}

} // verus!
