//! Errors of the parser.
use vstd::prelude::*;
use crate::lexer::{Span, TokenKind};
use crate::text::push_str;

verus! {

#[derive(Debug, Clone, PartialEq)]
pub enum ParseError {
    Unexpected { expected: String, got: TokenKind, span: Span },
    UnexpectedEof { expected: String },
}

impl ParseError {
    pub open spec fn spec_position(&self) -> (u32, u32) {
        match self {
            ParseError::Unexpected { span, .. } => (span.line, span.col),
            ParseError::UnexpectedEof { .. } => (0u32, 0u32),
        }
    }

    /// Line and column of the offending token; `(0, 0)` at the end of input.
    pub fn position(&self) -> (r: (u32, u32))
        ensures
            r == self.spec_position(),
    {
        match self {
            ParseError::Unexpected { span, .. } => (span.line, span.col),
            ParseError::UnexpectedEof { .. } => (0, 0),
        }
    }

    pub open spec fn spec_clean_message(&self) -> Seq<char> {
        match self {
            ParseError::Unexpected { expected, got, .. } => "expected "@ + expected@ + ", got "@
                + got.spec_debug_text(),
            ParseError::UnexpectedEof { expected } => "unexpected end of file, expected "@ + expected@,
        }
    }

    /// The message without its position.
    pub fn clean_message(&self) -> (s: String)
        ensures
            s@ == self.spec_clean_message(),
    {
        let mut s = String::new();
        match self {
            ParseError::Unexpected { expected, got, .. } => {
                push_str(&mut s, "expected ");
                push_str(&mut s, expected.as_str());
                push_str(&mut s, ", got ");
                let g = got.debug_text();
                push_str(&mut s, g.as_str());
            },
            ParseError::UnexpectedEof { expected } => {
                push_str(&mut s, "unexpected end of file, expected ");
                push_str(&mut s, expected.as_str());
            },
        }
        s
    }
}

} // verus!
