//! Tokens produced by the scanner.
use vstd::prelude::*;
use crate::text::{push_str, debug_string, debug_quoted};

verus! {

/// A position in source text: byte offsets `start..end`, and the line and
/// column (both counted from 1, columns in characters) of `start`.
#[derive(Debug, Clone, Copy, PartialEq, Eq, Default, Structural)]
pub struct Span {
    pub start: usize,
    pub end: usize,
    pub line: u32,
    pub col: u32,
}

impl Span {
    pub fn new(start: usize, end: usize, line: u32, col: u32) -> (s: Self)
        ensures
            s == (Span { start, end, line, col }),
    {
        Span { start, end, line, col }
    }
}

/// A token: its kind, where it stands, and the source text it covers.
#[derive(Debug, Clone, PartialEq)]
pub struct Token {
    pub kind: TokenKind,
    pub span: Span,
    pub lexeme: String,
}

impl Token {
    pub fn new(kind: TokenKind, span: Span, lexeme: String) -> (t: Self)
        ensures
            t.kind == kind,
            t.span == span,
            t.lexeme == lexeme,
    {
        Token { kind, span, lexeme }
    }
}

/// The kinds of token. A number literal keeps its source text (digits with
/// an optional fractional part); its value is read where it is evaluated.
#[derive(Debug, Clone, PartialEq)]
pub enum TokenKind {
    Number(String),
    StringLit(String),
    True,
    False,
    Ident(String),
    Let,
    In,
    If,
    Elif,
    Else,
    While,
    For,
    Function,
    Class,
    Type,
    Is,
    Inherits,
    New,
    Self_,
    Case,
    Of,
    With,
    As,
    Null,
    Protocol,
    Interface,
    Def,
    Define,
    Default,
    Dollar,
    Plus,
    Minus,
    Star,
    Slash,
    Percent,
    Caret,
    At,
    AtAt,
    Lt,
    Le,
    Gt,
    Ge,
    EqEq,
    BangEq,
    Amp,
    Pipe,
    Bang,
    Eq,
    Arrow,
    DArrow,
    ColonEq,
    LParen,
    RParen,
    LBrace,
    RBrace,
    LBracket,
    RBracket,
    Comma,
    Semicolon,
    Colon,
    Dot,
    Pipe2,
    Eof,
}

impl TokenKind {
    /// Which variant this is, as a number (payloads ignored).
    pub open spec fn spec_tag(&self) -> u8 {
        match self {
            TokenKind::Number(..) => 0,
            TokenKind::StringLit(..) => 1,
            TokenKind::True => 2,
            TokenKind::False => 3,
            TokenKind::Ident(..) => 4,
            TokenKind::Let => 5,
            TokenKind::In => 6,
            TokenKind::If => 7,
            TokenKind::Elif => 8,
            TokenKind::Else => 9,
            TokenKind::While => 10,
            TokenKind::For => 11,
            TokenKind::Function => 12,
            TokenKind::Class => 13,
            TokenKind::Type => 14,
            TokenKind::Is => 15,
            TokenKind::Inherits => 16,
            TokenKind::New => 17,
            TokenKind::Self_ => 18,
            TokenKind::Case => 19,
            TokenKind::Of => 20,
            TokenKind::With => 21,
            TokenKind::As => 22,
            TokenKind::Null => 23,
            TokenKind::Protocol => 24,
            TokenKind::Interface => 25,
            TokenKind::Def => 26,
            TokenKind::Define => 27,
            TokenKind::Default => 28,
            TokenKind::Dollar => 29,
            TokenKind::Plus => 30,
            TokenKind::Minus => 31,
            TokenKind::Star => 32,
            TokenKind::Slash => 33,
            TokenKind::Percent => 34,
            TokenKind::Caret => 35,
            TokenKind::At => 36,
            TokenKind::AtAt => 37,
            TokenKind::Lt => 38,
            TokenKind::Le => 39,
            TokenKind::Gt => 40,
            TokenKind::Ge => 41,
            TokenKind::EqEq => 42,
            TokenKind::BangEq => 43,
            TokenKind::Amp => 44,
            TokenKind::Pipe => 45,
            TokenKind::Bang => 46,
            TokenKind::Eq => 47,
            TokenKind::Arrow => 48,
            TokenKind::DArrow => 49,
            TokenKind::ColonEq => 50,
            TokenKind::LParen => 51,
            TokenKind::RParen => 52,
            TokenKind::LBrace => 53,
            TokenKind::RBrace => 54,
            TokenKind::LBracket => 55,
            TokenKind::RBracket => 56,
            TokenKind::Comma => 57,
            TokenKind::Semicolon => 58,
            TokenKind::Colon => 59,
            TokenKind::Dot => 60,
            TokenKind::Pipe2 => 61,
            TokenKind::Eof => 62,
        }
    }

    pub fn tag(&self) -> (r: u8)
        ensures
            r == self.spec_tag(),
    {
        match self {
            TokenKind::Number(..) => 0,
            TokenKind::StringLit(..) => 1,
            TokenKind::True => 2,
            TokenKind::False => 3,
            TokenKind::Ident(..) => 4,
            TokenKind::Let => 5,
            TokenKind::In => 6,
            TokenKind::If => 7,
            TokenKind::Elif => 8,
            TokenKind::Else => 9,
            TokenKind::While => 10,
            TokenKind::For => 11,
            TokenKind::Function => 12,
            TokenKind::Class => 13,
            TokenKind::Type => 14,
            TokenKind::Is => 15,
            TokenKind::Inherits => 16,
            TokenKind::New => 17,
            TokenKind::Self_ => 18,
            TokenKind::Case => 19,
            TokenKind::Of => 20,
            TokenKind::With => 21,
            TokenKind::As => 22,
            TokenKind::Null => 23,
            TokenKind::Protocol => 24,
            TokenKind::Interface => 25,
            TokenKind::Def => 26,
            TokenKind::Define => 27,
            TokenKind::Default => 28,
            TokenKind::Dollar => 29,
            TokenKind::Plus => 30,
            TokenKind::Minus => 31,
            TokenKind::Star => 32,
            TokenKind::Slash => 33,
            TokenKind::Percent => 34,
            TokenKind::Caret => 35,
            TokenKind::At => 36,
            TokenKind::AtAt => 37,
            TokenKind::Lt => 38,
            TokenKind::Le => 39,
            TokenKind::Gt => 40,
            TokenKind::Ge => 41,
            TokenKind::EqEq => 42,
            TokenKind::BangEq => 43,
            TokenKind::Amp => 44,
            TokenKind::Pipe => 45,
            TokenKind::Bang => 46,
            TokenKind::Eq => 47,
            TokenKind::Arrow => 48,
            TokenKind::DArrow => 49,
            TokenKind::ColonEq => 50,
            TokenKind::LParen => 51,
            TokenKind::RParen => 52,
            TokenKind::LBrace => 53,
            TokenKind::RBrace => 54,
            TokenKind::LBracket => 55,
            TokenKind::RBracket => 56,
            TokenKind::Comma => 57,
            TokenKind::Semicolon => 58,
            TokenKind::Colon => 59,
            TokenKind::Dot => 60,
            TokenKind::Pipe2 => 61,
            TokenKind::Eof => 62,
        }
    }

    /// An equal copy.
    pub fn copy(&self) -> (r: Self)
        ensures
            r == *self,
    {
        match self {
            TokenKind::Number(s) => TokenKind::Number(s.clone()),
            TokenKind::StringLit(s) => TokenKind::StringLit(s.clone()),
            TokenKind::True => TokenKind::True,
            TokenKind::False => TokenKind::False,
            TokenKind::Ident(s) => TokenKind::Ident(s.clone()),
            TokenKind::Let => TokenKind::Let,
            TokenKind::In => TokenKind::In,
            TokenKind::If => TokenKind::If,
            TokenKind::Elif => TokenKind::Elif,
            TokenKind::Else => TokenKind::Else,
            TokenKind::While => TokenKind::While,
            TokenKind::For => TokenKind::For,
            TokenKind::Function => TokenKind::Function,
            TokenKind::Class => TokenKind::Class,
            TokenKind::Type => TokenKind::Type,
            TokenKind::Is => TokenKind::Is,
            TokenKind::Inherits => TokenKind::Inherits,
            TokenKind::New => TokenKind::New,
            TokenKind::Self_ => TokenKind::Self_,
            TokenKind::Case => TokenKind::Case,
            TokenKind::Of => TokenKind::Of,
            TokenKind::With => TokenKind::With,
            TokenKind::As => TokenKind::As,
            TokenKind::Null => TokenKind::Null,
            TokenKind::Protocol => TokenKind::Protocol,
            TokenKind::Interface => TokenKind::Interface,
            TokenKind::Def => TokenKind::Def,
            TokenKind::Define => TokenKind::Define,
            TokenKind::Default => TokenKind::Default,
            TokenKind::Dollar => TokenKind::Dollar,
            TokenKind::Plus => TokenKind::Plus,
            TokenKind::Minus => TokenKind::Minus,
            TokenKind::Star => TokenKind::Star,
            TokenKind::Slash => TokenKind::Slash,
            TokenKind::Percent => TokenKind::Percent,
            TokenKind::Caret => TokenKind::Caret,
            TokenKind::At => TokenKind::At,
            TokenKind::AtAt => TokenKind::AtAt,
            TokenKind::Lt => TokenKind::Lt,
            TokenKind::Le => TokenKind::Le,
            TokenKind::Gt => TokenKind::Gt,
            TokenKind::Ge => TokenKind::Ge,
            TokenKind::EqEq => TokenKind::EqEq,
            TokenKind::BangEq => TokenKind::BangEq,
            TokenKind::Amp => TokenKind::Amp,
            TokenKind::Pipe => TokenKind::Pipe,
            TokenKind::Bang => TokenKind::Bang,
            TokenKind::Eq => TokenKind::Eq,
            TokenKind::Arrow => TokenKind::Arrow,
            TokenKind::DArrow => TokenKind::DArrow,
            TokenKind::ColonEq => TokenKind::ColonEq,
            TokenKind::LParen => TokenKind::LParen,
            TokenKind::RParen => TokenKind::RParen,
            TokenKind::LBrace => TokenKind::LBrace,
            TokenKind::RBrace => TokenKind::RBrace,
            TokenKind::LBracket => TokenKind::LBracket,
            TokenKind::RBracket => TokenKind::RBracket,
            TokenKind::Comma => TokenKind::Comma,
            TokenKind::Semicolon => TokenKind::Semicolon,
            TokenKind::Colon => TokenKind::Colon,
            TokenKind::Dot => TokenKind::Dot,
            TokenKind::Pipe2 => TokenKind::Pipe2,
            TokenKind::Eof => TokenKind::Eof,
        }
    }

    /// The name of the variant, as `Debug` writes it.
    pub open spec fn spec_variant_name(&self) -> Seq<char> {
        match self {
            TokenKind::Number(..) => "Number"@,
            TokenKind::StringLit(..) => "StringLit"@,
            TokenKind::True => "True"@,
            TokenKind::False => "False"@,
            TokenKind::Ident(..) => "Ident"@,
            TokenKind::Let => "Let"@,
            TokenKind::In => "In"@,
            TokenKind::If => "If"@,
            TokenKind::Elif => "Elif"@,
            TokenKind::Else => "Else"@,
            TokenKind::While => "While"@,
            TokenKind::For => "For"@,
            TokenKind::Function => "Function"@,
            TokenKind::Class => "Class"@,
            TokenKind::Type => "Type"@,
            TokenKind::Is => "Is"@,
            TokenKind::Inherits => "Inherits"@,
            TokenKind::New => "New"@,
            TokenKind::Self_ => "Self_"@,
            TokenKind::Case => "Case"@,
            TokenKind::Of => "Of"@,
            TokenKind::With => "With"@,
            TokenKind::As => "As"@,
            TokenKind::Null => "Null"@,
            TokenKind::Protocol => "Protocol"@,
            TokenKind::Interface => "Interface"@,
            TokenKind::Def => "Def"@,
            TokenKind::Define => "Define"@,
            TokenKind::Default => "Default"@,
            TokenKind::Dollar => "Dollar"@,
            TokenKind::Plus => "Plus"@,
            TokenKind::Minus => "Minus"@,
            TokenKind::Star => "Star"@,
            TokenKind::Slash => "Slash"@,
            TokenKind::Percent => "Percent"@,
            TokenKind::Caret => "Caret"@,
            TokenKind::At => "At"@,
            TokenKind::AtAt => "AtAt"@,
            TokenKind::Lt => "Lt"@,
            TokenKind::Le => "Le"@,
            TokenKind::Gt => "Gt"@,
            TokenKind::Ge => "Ge"@,
            TokenKind::EqEq => "EqEq"@,
            TokenKind::BangEq => "BangEq"@,
            TokenKind::Amp => "Amp"@,
            TokenKind::Pipe => "Pipe"@,
            TokenKind::Bang => "Bang"@,
            TokenKind::Eq => "Eq"@,
            TokenKind::Arrow => "Arrow"@,
            TokenKind::DArrow => "DArrow"@,
            TokenKind::ColonEq => "ColonEq"@,
            TokenKind::LParen => "LParen"@,
            TokenKind::RParen => "RParen"@,
            TokenKind::LBrace => "LBrace"@,
            TokenKind::RBrace => "RBrace"@,
            TokenKind::LBracket => "LBracket"@,
            TokenKind::RBracket => "RBracket"@,
            TokenKind::Comma => "Comma"@,
            TokenKind::Semicolon => "Semicolon"@,
            TokenKind::Colon => "Colon"@,
            TokenKind::Dot => "Dot"@,
            TokenKind::Pipe2 => "Pipe2"@,
            TokenKind::Eof => "Eof"@,
        }
    }

    pub fn variant_name(&self) -> (r: &'static str)
        ensures
            r@ == self.spec_variant_name(),
    {
        match self {
            TokenKind::Number(..) => "Number",
            TokenKind::StringLit(..) => "StringLit",
            TokenKind::True => "True",
            TokenKind::False => "False",
            TokenKind::Ident(..) => "Ident",
            TokenKind::Let => "Let",
            TokenKind::In => "In",
            TokenKind::If => "If",
            TokenKind::Elif => "Elif",
            TokenKind::Else => "Else",
            TokenKind::While => "While",
            TokenKind::For => "For",
            TokenKind::Function => "Function",
            TokenKind::Class => "Class",
            TokenKind::Type => "Type",
            TokenKind::Is => "Is",
            TokenKind::Inherits => "Inherits",
            TokenKind::New => "New",
            TokenKind::Self_ => "Self_",
            TokenKind::Case => "Case",
            TokenKind::Of => "Of",
            TokenKind::With => "With",
            TokenKind::As => "As",
            TokenKind::Null => "Null",
            TokenKind::Protocol => "Protocol",
            TokenKind::Interface => "Interface",
            TokenKind::Def => "Def",
            TokenKind::Define => "Define",
            TokenKind::Default => "Default",
            TokenKind::Dollar => "Dollar",
            TokenKind::Plus => "Plus",
            TokenKind::Minus => "Minus",
            TokenKind::Star => "Star",
            TokenKind::Slash => "Slash",
            TokenKind::Percent => "Percent",
            TokenKind::Caret => "Caret",
            TokenKind::At => "At",
            TokenKind::AtAt => "AtAt",
            TokenKind::Lt => "Lt",
            TokenKind::Le => "Le",
            TokenKind::Gt => "Gt",
            TokenKind::Ge => "Ge",
            TokenKind::EqEq => "EqEq",
            TokenKind::BangEq => "BangEq",
            TokenKind::Amp => "Amp",
            TokenKind::Pipe => "Pipe",
            TokenKind::Bang => "Bang",
            TokenKind::Eq => "Eq",
            TokenKind::Arrow => "Arrow",
            TokenKind::DArrow => "DArrow",
            TokenKind::ColonEq => "ColonEq",
            TokenKind::LParen => "LParen",
            TokenKind::RParen => "RParen",
            TokenKind::LBrace => "LBrace",
            TokenKind::RBrace => "RBrace",
            TokenKind::LBracket => "LBracket",
            TokenKind::RBracket => "RBracket",
            TokenKind::Comma => "Comma",
            TokenKind::Semicolon => "Semicolon",
            TokenKind::Colon => "Colon",
            TokenKind::Dot => "Dot",
            TokenKind::Pipe2 => "Pipe2",
            TokenKind::Eof => "Eof",
        }
    }

    /// The text that names this kind in messages: the variant, and its
    /// payload in brackets (a string payload quoted and escaped as `Debug`
    /// does, a number by its source text).
    pub open spec fn spec_debug_text(&self) -> Seq<char> {
        match self {
            TokenKind::Number(n) => "Number("@ + n@ + ")"@,
            TokenKind::StringLit(v) => "StringLit("@ + debug_quoted(v@) + ")"@,
            TokenKind::Ident(n) => "Ident("@ + debug_quoted(n@) + ")"@,
            _ => self.spec_variant_name(),
        }
    }

    pub fn debug_text(&self) -> (r: String)
        ensures
            r@ == self.spec_debug_text(),
    {
        match self {
            TokenKind::Number(n) => {
                let mut s = String::new();
                push_str(&mut s, "Number(");
                push_str(&mut s, n.as_str());
                push_str(&mut s, ")");
                s
            },
            TokenKind::StringLit(v) => {
                let mut s = String::new();
                push_str(&mut s, "StringLit(");
                let q = debug_string(v.as_str());
                push_str(&mut s, q.as_str());
                push_str(&mut s, ")");
                s
            },
            TokenKind::Ident(n) => {
                let mut s = String::new();
                push_str(&mut s, "Ident(");
                let q = debug_string(n.as_str());
                push_str(&mut s, q.as_str());
                push_str(&mut s, ")");
                s
            },
            _ => {
                let mut s = String::new();
                push_str(&mut s, self.variant_name());
                s
            },
        }
    }
}

impl Token {
    /// An equal copy.
    pub fn copy(&self) -> (r: Self)
        ensures
            r == *self,
    {
        Token { kind: self.kind.copy(), span: self.span, lexeme: self.lexeme.clone() }
    }
}

} // verus!
