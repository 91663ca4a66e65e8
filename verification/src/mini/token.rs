//! Tokens of the small expression language.
use vstd::prelude::*;
use crate::text::{push_str, debug_quoted, debug_string};

verus! {

#[derive(Debug, PartialEq)]
pub enum Token {
    Let,
    Fn,
    If,
    Else,
    True,
    False,
    Plus,
    Minus,
    Star,
    Slash,
    LParen,
    RParen,
    LBrace,
    RBrace,
    Semicolon,
    Colon,
    Assign,
    Comma,
    /// Digits, as written.
    Int(String),
    Ident(String),
    Error,
}

impl Token {
    /// The text a literal or a name carries.
    pub open spec fn payload(&self) -> Seq<char> {
        match self {
            Token::Int(s) => s@,
            Token::Ident(s) => s@,
            _ => Seq::empty(),
        }
    }

    /// Same token: same variant and same text.
    pub open spec fn same_as(&self, other: Token) -> bool {
        &&& self.payload() == other.payload()
        &&& match (*self, other) {
            (Token::Int(_), Token::Int(_)) => true,
            (Token::Ident(_), Token::Ident(_)) => true,
            (Token::Int(_), _) | (_, Token::Int(_)) | (Token::Ident(_), _) | (_, Token::Ident(_)) => false,
            (a, b) => a == b,
        }
    }

    /// How `Debug` writes the token.
    pub open spec fn debug_text(&self) -> Seq<char> {
        match self {
            Token::Let => "Let"@,
            Token::Fn => "Fn"@,
            Token::If => "If"@,
            Token::Else => "Else"@,
            Token::True => "True"@,
            Token::False => "False"@,
            Token::Plus => "Plus"@,
            Token::Minus => "Minus"@,
            Token::Star => "Star"@,
            Token::Slash => "Slash"@,
            Token::LParen => "LParen"@,
            Token::RParen => "RParen"@,
            Token::LBrace => "LBrace"@,
            Token::RBrace => "RBrace"@,
            Token::Semicolon => "Semicolon"@,
            Token::Colon => "Colon"@,
            Token::Assign => "Assign"@,
            Token::Comma => "Comma"@,
            Token::Int(s) => "Int("@ + debug_quoted(s@) + ")"@,
            Token::Ident(s) => "Ident("@ + debug_quoted(s@) + ")"@,
            Token::Error => "Error"@,
        }
    }

    /// The token as `Debug` writes it.
    pub fn debug(&self) -> (r: String)
        ensures
            r@ == self.debug_text(),
    {
        let name = match self {
            Token::Let => "Let",
            Token::Fn => "Fn",
            Token::If => "If",
            Token::Else => "Else",
            Token::True => "True",
            Token::False => "False",
            Token::Plus => "Plus",
            Token::Minus => "Minus",
            Token::Star => "Star",
            Token::Slash => "Slash",
            Token::LParen => "LParen",
            Token::RParen => "RParen",
            Token::LBrace => "LBrace",
            Token::RBrace => "RBrace",
            Token::Semicolon => "Semicolon",
            Token::Colon => "Colon",
            Token::Assign => "Assign",
            Token::Comma => "Comma",
            Token::Int(s) => {
                let mut r = "Int(".to_owned();
                let q = debug_string(s.as_str());
                push_str(&mut r, q.as_str());
                push_str(&mut r, ")");
                return r;
            },
            Token::Ident(s) => {
                let mut r = "Ident(".to_owned();
                let q = debug_string(s.as_str());
                push_str(&mut r, q.as_str());
                push_str(&mut r, ")");
                return r;
            },
            Token::Error => "Error",
        };
        name.to_owned()
    }

    /// A copy.
    pub fn copy(&self) -> (r: Self)
        ensures
            r.same_as(*self),
    {
        match self {
            Token::Let => Token::Let,
            Token::Fn => Token::Fn,
            Token::If => Token::If,
            Token::Else => Token::Else,
            Token::True => Token::True,
            Token::False => Token::False,
            Token::Plus => Token::Plus,
            Token::Minus => Token::Minus,
            Token::Star => Token::Star,
            Token::Slash => Token::Slash,
            Token::LParen => Token::LParen,
            Token::RParen => Token::RParen,
            Token::LBrace => Token::LBrace,
            Token::RBrace => Token::RBrace,
            Token::Semicolon => Token::Semicolon,
            Token::Colon => Token::Colon,
            Token::Assign => Token::Assign,
            Token::Comma => Token::Comma,
            Token::Int(s) => Token::Int(s.clone()),
            Token::Ident(s) => Token::Ident(s.clone()),
            Token::Error => Token::Error,
        }
    }
}

impl Clone for Token {
    fn clone(&self) -> (r: Self)
        ensures
            r.same_as(*self),
    {
        self.copy()
    }
}

/// How `Debug` writes an optional token.
pub open spec fn debug_opt(t: Option<Token>) -> Seq<char> {
    match t {
        Some(t) => "Some("@ + t.debug_text() + ")"@,
        None => "None"@,
    }
}

} // verus!
