//! Errors of the scanner.
use vstd::prelude::*;
use crate::text::{push_char, push_str, u32_to_string, decimal};

verus! {

#[derive(Debug, Clone, PartialEq)]
pub enum LexError {
    UnexpectedChar { ch: char, line: u32, col: u32 },
    UnterminatedString { line: u32, col: u32 },
    UnknownEscape { ch: char, line: u32, col: u32 },
    InvalidNumber { lexeme: String, line: u32, col: u32 },
}

impl LexError {
    /// Line and column at which the error was found.
    pub fn position(&self) -> (r: (u32, u32))
        ensures
            r == self.spec_position(),
    {
        match self {
            LexError::UnexpectedChar { line, col, .. } => (*line, *col),
            LexError::UnterminatedString { line, col } => (*line, *col),
            LexError::UnknownEscape { line, col, .. } => (*line, *col),
            LexError::InvalidNumber { line, col, .. } => (*line, *col),
        }
    }

    /// The message without its position.
    pub fn clean_message(&self) -> (s: String)
        ensures
            s@ == self.spec_clean_message(),
    {
        let mut s = String::new();
        match self {
            LexError::UnexpectedChar { ch, .. } => {
                push_str(&mut s, "unexpected character '");
                push_char(&mut s, *ch);
                push_str(&mut s, "'");
            },
            LexError::UnterminatedString { .. } => {
                push_str(&mut s, "unterminated string literal");
            },
            LexError::UnknownEscape { ch, .. } => {
                push_str(&mut s, "unknown escape sequence '\\");
                push_char(&mut s, *ch);
                push_str(&mut s, "'");
            },
            LexError::InvalidNumber { lexeme, .. } => {
                push_str(&mut s, "invalid number literal '");
                push_str(&mut s, lexeme.as_str());
                push_str(&mut s, "'");
            },
        }
        s
    }

    /// The full message, with the position in front, as `Display` shows it.
    pub fn message(&self) -> (s: String)
        ensures
            s@ == seq!['['] + decimal(self.spec_position().0 as nat) + seq![':'] + decimal(
                self.spec_position().1 as nat,
            ) + seq![']', ' '] + self.spec_display_body(),
    {
        let (line, col) = self.position();
        let mut s = String::new();
        push_char(&mut s, '[');
        let l = u32_to_string(line);
        push_str(&mut s, l.as_str());
        push_char(&mut s, ':');
        let c = u32_to_string(col);
        push_str(&mut s, c.as_str());
        push_char(&mut s, ']');
        push_char(&mut s, ' ');
        match self {
            LexError::UnexpectedChar { ch, .. } => {
                push_str(&mut s, "Unexpected character '");
                push_char(&mut s, *ch);
                push_str(&mut s, "'");
            },
            LexError::UnterminatedString { .. } => {
                push_str(&mut s, "Unterminated string literal");
            },
            LexError::UnknownEscape { ch, .. } => {
                push_str(&mut s, "Unknown escape sequence '\\");
                push_char(&mut s, *ch);
                push_str(&mut s, "'");
            },
            LexError::InvalidNumber { lexeme, .. } => {
                push_str(&mut s, "Invalid number literal '");
                push_str(&mut s, lexeme.as_str());
                push_str(&mut s, "'");
            },
        }
        s
    }

    pub open spec fn spec_position(&self) -> (u32, u32) {
        match self {
            LexError::UnexpectedChar { line, col, .. } => (*line, *col),
            LexError::UnterminatedString { line, col } => (*line, *col),
            LexError::UnknownEscape { line, col, .. } => (*line, *col),
            LexError::InvalidNumber { line, col, .. } => (*line, *col),
        }
    }

    pub open spec fn spec_clean_message(&self) -> Seq<char> {
        match self {
            LexError::UnexpectedChar { ch, .. } => "unexpected character '"@ + seq![*ch] + "'"@,
            LexError::UnterminatedString { .. } => "unterminated string literal"@,
            LexError::UnknownEscape { ch, .. } => "unknown escape sequence '\\"@ + seq![*ch] + "'"@,
            LexError::InvalidNumber { lexeme, .. } => "invalid number literal '"@ + lexeme@ + "'"@,
        }
    }

    pub open spec fn spec_display_body(&self) -> Seq<char> {
        match self {
            LexError::UnexpectedChar { ch, .. } => "Unexpected character '"@ + seq![*ch] + "'"@,
            LexError::UnterminatedString { .. } => "Unterminated string literal"@,
            LexError::UnknownEscape { ch, .. } => "Unknown escape sequence '\\"@ + seq![*ch] + "'"@,
            LexError::InvalidNumber { lexeme, .. } => "Invalid number literal '"@ + lexeme@ + "'"@,
        }
    }
}

} // verus!
