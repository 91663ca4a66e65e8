//! The scanner: source text to tokens.
pub mod error;
pub mod laws;
pub mod scan;
pub mod token;

pub use error::LexError;
pub use scan::Lexer;
pub use token::{Span, Token, TokenKind};
