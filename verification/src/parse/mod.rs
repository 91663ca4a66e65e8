//! The parser: tokens to syntax tree, and the lex-then-parse pipeline.
pub mod error;
pub mod grammar;
pub mod laws;
pub mod parser;
pub mod program_grammar;

pub use error::ParseError;
pub use parser::Parser;

use vstd::prelude::*;
use vstd::string::*;
use crate::ast::{ExprS, Program};
use crate::lexer::{Lexer, LexError};
use crate::lexer::scan::{error_at, tokens_ok, lexed, last_end, skip_from};
use crate::lexer::Token;
use crate::text::decimal;
use grammar::{eview, p_expr, PErrV, SExprV};
use program_grammar::{p_program, program_view, ProgramV};

verus! {

/// Which phase failed.
#[derive(Debug)]
pub enum PipelineError {
    Lex(LexError),
    Parse(ParseError),
}

/// The message a lexical error is reported with.
pub open spec fn lex_message(e: LexError) -> Seq<char> {
    seq!['['] + decimal(e.spec_position().0 as nat) + seq![':'] + decimal(e.spec_position().1 as nat) + seq![
        ']',
        ' ',
    ] + e.spec_display_body()
}

/// `src` lexes to `toks` and a program parses from them to `prog`.
pub open spec fn program_of(src: Seq<char>, toks: Seq<Token>, prog: ProgramV) -> bool {
    &&& tokens_ok(src, toks)
    &&& p_program(toks, 0, false, false) is Ok
    &&& p_program(toks, 0, false, false)->Ok_0.0 == prog
}

/// `src` lexes to `toks` and reading a program from them fails with `e`.
pub open spec fn program_error(src: Seq<char>, toks: Seq<Token>, e: PErrV) -> bool {
    &&& tokens_ok(src, toks)
    &&& p_program(toks, 0, false, false) == Err::<(ProgramV, int), PErrV>(e)
}

/// `src` lexes to `toks` and an expression parses from their start to `x`.
pub open spec fn expr_of(src: Seq<char>, toks: Seq<Token>, x: SExprV) -> bool {
    &&& tokens_ok(src, toks)
    &&& p_expr(toks, 0, false, false) is Ok
    &&& p_expr(toks, 0, false, false)->Ok_0.0 == x
}

/// `src` lexes to `toks` and reading an expression from them fails with `e`.
pub open spec fn expr_error(src: Seq<char>, toks: Seq<Token>, e: PErrV) -> bool {
    &&& tokens_ok(src, toks)
    &&& p_expr(toks, 0, false, false) == Err::<(SExprV, int), PErrV>(e)
}

/// Scanning `src` from its start stops with the error `e`, after the tokens
/// `toks`.
pub open spec fn first_lex_error(src: Seq<char>, toks: Seq<Token>, ends: Seq<int>, e: LexError) -> bool {
    &&& lexed(src, toks, ends)
    &&& error_at(src, skip_from(src, last_end(ends)), e)
}

/// Scanning `src` stops with an error reported as an unexpected end with its
/// message.
pub open spec fn lex_failure(src: Seq<char>, e: PErrV) -> bool {
    exists|toks: Seq<Token>, ends: Seq<int>, le: LexError|
        #[trigger] first_lex_error(src, toks, ends, le) && e == PErrV::UnexpectedEof { expected: lex_message(le) }
}

/// Lexes and parses `src`, telling lexical and syntactic errors apart.
pub fn compile(src: &str) -> (r: Result<Program, PipelineError>)
    requires
        src@.len() < u32::MAX,
        src.spec_bytes().len() <= usize::MAX,
    ensures
        r matches Err(PipelineError::Lex(e)) ==> exists|toks: Seq<Token>, ends: Seq<int>|
            #[trigger] first_lex_error(src@, toks, ends, e),
        r matches Err(PipelineError::Parse(e)) ==> exists|toks: Seq<Token>| #[trigger] program_error(src@, toks, e@),
        r matches Ok(prog) ==> exists|toks: Seq<Token>| #[trigger] program_of(src@, toks, program_view(prog)),
{
    let tokens = match Lexer::new(src).tokenize() {
        Ok(t) => t,
        Err(e) => {
            proof {
                let (toks, ends) = choose|toks: Seq<Token>, ends: Seq<int>|
                    lexed(src@, toks, ends) && error_at(src@, skip_from(src@, last_end(ends)), e);
                assert(first_lex_error(src@, toks, ends, e));
            }
            return Err(PipelineError::Lex(e));
        },
    };
    let ghost toks = tokens@;
    let mut p = Parser::new(tokens);
    match p.parse_program() {
        Ok(prog) => {
            assert(program_of(src@, toks, program_view(prog)));
            Ok(prog)
        },
        Err(e) => {
            assert(program_error(src@, toks, e@));
            Err(PipelineError::Parse(e))
        },
    }
}

/// Lexes and parses a whole program; a lexical error is reported as an
/// unexpected end whose expectation is the lexical message.
pub fn parse_program(src: &str) -> (r: Result<Program, ParseError>)
    requires
        src@.len() < u32::MAX,
        src.spec_bytes().len() <= usize::MAX,
    ensures
        r matches Ok(prog) ==> exists|toks: Seq<Token>| #[trigger] program_of(src@, toks, program_view(prog)),
        r matches Err(e) ==> lex_failure(src@, e@) || exists|toks: Seq<Token>| #[trigger] program_error(src@, toks, e@),
{
    let tokens = match Lexer::new(src).tokenize() {
        Ok(t) => t,
        Err(e) => {
            let r = ParseError::UnexpectedEof { expected: e.message() };
            proof {
                let (toks, ends) = choose|toks: Seq<Token>, ends: Seq<int>|
                    lexed(src@, toks, ends) && error_at(src@, skip_from(src@, last_end(ends)), e);
                assert(first_lex_error(src@, toks, ends, e));
            }
            return Err(r);
        },
    };
    let ghost toks = tokens@;
    let mut p = Parser::new(tokens);
    let r = p.parse_program();
    proof {
        if r is Ok {
            assert(program_of(src@, toks, program_view(r->Ok_0)));
        } else {
            assert(program_error(src@, toks, r->Err_0@));
        }
    }
    r
}

/// Lexes and parses a single expression (no trailing `;` needed); what
/// follows the expression is not read.
pub fn parse_expr(src: &str) -> (r: Result<ExprS, ParseError>)
    requires
        src@.len() < u32::MAX,
        src.spec_bytes().len() <= usize::MAX,
    ensures
        r matches Ok(x) ==> exists|toks: Seq<Token>| #[trigger] expr_of(src@, toks, eview(x)),
        r matches Err(e) ==> lex_failure(src@, e@) || exists|toks: Seq<Token>| #[trigger] expr_error(src@, toks, e@),
{
    let tokens = match Lexer::new(src).tokenize() {
        Ok(t) => t,
        Err(e) => {
            let r = ParseError::UnexpectedEof { expected: e.message() };
            proof {
                let (toks, ends) = choose|toks: Seq<Token>, ends: Seq<int>|
                    lexed(src@, toks, ends) && error_at(src@, skip_from(src@, last_end(ends)), e);
                assert(first_lex_error(src@, toks, ends, e));
            }
            return Err(r);
        },
    };
    let ghost toks = tokens@;
    let mut p = Parser::new(tokens);
    let r = p.parse_expr();
    proof {
        if r is Ok {
            assert(expr_of(src@, toks, eview(r->Ok_0)));
        } else {
            assert(expr_error(src@, toks, r->Err_0@));
        }
    }
    r
}

} // verus!
