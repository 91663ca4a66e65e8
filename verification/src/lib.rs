use vstd::prelude::*;

pub mod cli;
pub mod env;
pub mod interp;
pub mod lexer;
pub mod mini;
pub mod parse;
pub mod sema;
pub mod ast;
pub mod text;

verus! {
} // verus!
