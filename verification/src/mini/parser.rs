//! A parser for the small expression language: `let` statements and
//! expressions, where a binary operation is written in parentheses.
use vstd::prelude::*;
use crate::text::{push_str, parse_i64, parse_i64_spec, IntError, str_is};
use super::ast::{Expr, Op, Program, Stmt, Type, TypeM};
use super::token::{Token, debug_opt};
use super::lexer::{lex, lexed_as};

verus! {

/// An expression with its names as character sequences.
pub ghost enum ExprM {
    Int(i64),
    Bool(bool),
    Ident(Seq<char>),
    Binary(Box<ExprM>, Op, Box<ExprM>),
    If(Box<ExprM>, Box<ExprM>, Option<Box<ExprM>>),
}

/// A statement by its parts' models.
pub ghost enum StmtM {
    Let { name: Seq<char>, ty: Option<TypeM>, expr: ExprM },
    Expr(ExprM),
}

impl Expr {
    pub open spec fn model(&self) -> ExprM
        decreases self,
    {
        match self {
            Expr::Int(n) => ExprM::Int(*n),
            Expr::Bool(b) => ExprM::Bool(*b),
            Expr::Ident(s) => ExprM::Ident(s@),
            Expr::Binary(l, op, r) => ExprM::Binary(Box::new(l.model()), *op, Box::new(r.model())),
            Expr::If(c, t, e) => ExprM::If(
                Box::new(c.model()),
                Box::new(t.model()),
                match e {
                    Some(x) => Some(Box::new(x.model())),
                    None => None,
                },
            ),
        }
    }
}

impl Stmt {
    pub open spec fn model(&self) -> StmtM {
        match self {
            Stmt::Let { name, ty, expr } => StmtM::Let {
                name: name@,
                ty: match ty {
                    Some(t) => Some(t.model()),
                    None => None,
                },
                expr: expr.model(),
            },
            Stmt::Expr(e) => StmtM::Expr(e.model()),
        }
    }
}

/// The models of a list of statements.
pub open spec fn stmt_models(v: Seq<Stmt>) -> Seq<StmtM> {
    v.map_values(|s: Stmt| s.model())
}

/// The token at `p`, if there is one.
pub open spec fn tok_at(ts: Seq<Token>, p: int) -> Option<Token> {
    if 0 <= p < ts.len() {
        Some(ts[p])
    } else {
        None
    }
}

/// The operator a token stands for.
pub open spec fn op_of(t: Token) -> Option<Op> {
    match t {
        Token::Plus => Some(Op::Add),
        Token::Minus => Some(Op::Sub),
        Token::Star => Some(Op::Mul),
        Token::Slash => Some(Op::Div),
        _ => None,
    }
}

/// An integer literal's value, or the error for it.
pub open spec fn int_literal(s: Seq<char>) -> Result<ExprM, Seq<char>> {
    match parse_i64_spec(s) {
        Ok(n) => Ok(ExprM::Int(n as i64)),
        Err(e) => Err("invalid int: "@ + e.spec_message()),
    }
}

/// The expression at `pos` of `ts` and the position after it, or the error.
pub open spec fn pexpr(ts: Seq<Token>, pos: int) -> Result<(ExprM, int), Seq<char>>
    decreases ts.len() - pos,
{
    if pos < 0 || pos >= ts.len() {
        Err("unexpected token: "@ + debug_opt(None))
    } else {
        match ts[pos] {
            Token::Int(s) => match int_literal(s@) {
                Ok(e) => Ok((e, pos + 1)),
                Err(m) => Err(m),
            },
            Token::Ident(s) => Ok((ExprM::Ident(s@), pos + 1)),
            Token::LParen => match pexpr(ts, pos + 1) {
                Err(m) => Err(m),
                Ok((l, p1)) => if p1 <= pos || p1 >= ts.len() {
                    Err("unexpected token after '('"@)
                } else if ts[p1] is RParen {
                    Ok((l, p1 + 1))
                } else if op_of(ts[p1]) is Some {
                    match pexpr(ts, p1 + 1) {
                        Err(m) => Err(m),
                        Ok((r, p2)) => if tok_at(ts, p2) matches Some(Token::RParen) {
                            Ok((ExprM::Binary(Box::new(l), op_of(ts[p1])->Some_0, Box::new(r)), p2 + 1))
                        } else {
                            Err("expected ')', got "@ + debug_opt(tok_at(ts, p2)))
                        },
                    }
                } else {
                    Err("unexpected token after '('"@)
                },
            },
            _ => Err("unexpected token: "@ + debug_opt(Some(ts[pos]))),
        }
    }
}

/// A parsed expression ends after where it starts, within the tokens.
pub proof fn lemma_pexpr_progress(ts: Seq<Token>, pos: int)
    ensures
        pexpr(ts, pos) matches Ok((e, p)) ==> pos < p <= ts.len(),
    decreases ts.len() - pos,
{
    if 0 <= pos < ts.len() {
        if ts[pos] is LParen {
            lemma_pexpr_progress(ts, pos + 1);
            if let Ok((l, p1)) = pexpr(ts, pos + 1) {
                if pos < p1 < ts.len() && op_of(ts[p1]) is Some {
                    lemma_pexpr_progress(ts, p1 + 1);
                }
            }
        }
    }
}

/// The type named after a colon.
pub open spec fn annotated_type(t: Option<Token>) -> Option<TypeM> {
    match t {
        Some(Token::Ident(s)) => if s@ == "int"@ {
            Some(TypeM::Int)
        } else if s@ == "bool"@ {
            Some(TypeM::Bool)
        } else {
            None
        },
        _ => None,
    }
}

/// Past an optional semicolon at `p`.
pub open spec fn skip_semi(ts: Seq<Token>, p: int) -> int {
    if tok_at(ts, p) matches Some(Token::Semicolon) {
        p + 1
    } else {
        p
    }
}

/// The statement at `pos` and the position after it, or the error: `let name
/// (: int|bool)? = expr`, or an expression; a semicolon after either is skipped.
pub open spec fn pstmt(ts: Seq<Token>, pos: int) -> Result<(StmtM, int), Seq<char>> {
    if tok_at(ts, pos) matches Some(Token::Let) {
        match tok_at(ts, pos + 1) {
            Some(Token::Ident(name)) => {
                let typed = tok_at(ts, pos + 2) matches Some(Token::Colon);
                if typed && annotated_type(tok_at(ts, pos + 3)) is None {
                    Err("expected type after ':', got "@ + debug_opt(tok_at(ts, pos + 3)))
                } else {
                    let ty = if typed { annotated_type(tok_at(ts, pos + 3)) } else { None };
                    let q = if typed { pos + 4 } else { pos + 2 };
                    if !(tok_at(ts, q) matches Some(Token::Assign)) {
                        Err("expected '=' after let binding, got "@ + debug_opt(tok_at(ts, q)))
                    } else {
                        match pexpr(ts, q + 1) {
                            Err(m) => Err(m),
                            Ok((e, p)) => Ok((StmtM::Let { name: name@, ty, expr: e }, skip_semi(ts, p))),
                        }
                    }
                }
            },
            other => Err("expected identifier after let, got "@ + debug_opt(other)),
        }
    } else {
        match pexpr(ts, pos) {
            Err(m) => Err(m),
            Ok((e, p)) => Ok((StmtM::Expr(e), skip_semi(ts, p))),
        }
    }
}

pub proof fn lemma_pstmt_progress(ts: Seq<Token>, pos: int)
    requires
        0 <= pos < ts.len(),
    ensures
        pstmt(ts, pos) matches Ok((s, p)) ==> pos < p <= ts.len(),
{
    lemma_pexpr_progress(ts, pos);
    lemma_pexpr_progress(ts, pos + 3);
    lemma_pexpr_progress(ts, pos + 5);
}

/// The statements from `pos` to the end, or the first error.
pub open spec fn pprog(ts: Seq<Token>, pos: int) -> Result<Seq<StmtM>, Seq<char>>
    decreases ts.len() - pos,
{
    if pos < 0 || pos >= ts.len() {
        Ok(Seq::empty())
    } else {
        match pstmt(ts, pos) {
            Err(m) => Err(m),
            Ok((s, p)) => if p <= pos {
                Err(Seq::empty())
            } else {
                match pprog(ts, p) {
                    Ok(rest) => Ok(seq![s] + rest),
                    Err(m) => Err(m),
                }
            },
        }
    }
}

/// A parser over a list of tokens.
pub struct Parser {
    tokens: Vec<Token>,
    pos: usize,
}

impl Parser {
    pub closed spec fn toks(&self) -> Seq<Token> {
        self.tokens@
    }

    /// The position of the next token.
    pub closed spec fn at(&self) -> int {
        self.pos as int
    }

    pub closed spec fn wf(&self) -> bool {
        self.pos <= self.tokens@.len()
    }

    pub fn new(tokens: Vec<Token>) -> (p: Self)
        ensures
            p.toks() == tokens@,
            p.at() == 0,
            p.wf(),
    {
        Parser { tokens, pos: 0 }
    }

    fn peek(&self) -> (r: Option<&Token>)
        ensures
            match r {
                Some(t) => tok_at(self.toks(), self.at()) == Some(*t),
                None => tok_at(self.toks(), self.at()) is None,
            },
    {
        if self.pos < self.tokens.len() {
            Some(&self.tokens[self.pos])
        } else {
            None
        }
    }

    fn bump(&mut self) -> (r: Option<Token>)
        requires
            old(self).wf(),
        ensures
            final(self).wf(),
            final(self).toks() == old(self).toks(),
            match r {
                Some(t) => tok_at(old(self).toks(), old(self).at()) matches Some(u) && t.same_as(u)
                    && final(self).at() == old(self).at() + 1,
                None => tok_at(old(self).toks(), old(self).at()) is None && final(self).at() == old(self).at(),
            },
    {
        if self.pos >= self.tokens.len() {
            None
        } else {
            let t = self.tokens[self.pos].copy();
            self.pos += 1;
            Some(t)
        }
    }

    /// `Debug` of an optional token.
    fn debug_opt(t: &Option<Token>) -> (r: String)
        ensures
            r@ == debug_opt(match t {
                Some(u) => Some(*u),
                None => None,
            }),
    {
        match t {
            Some(u) => {
                let mut s = "Some(".to_owned();
                let d = u.debug();
                push_str(&mut s, d.as_str());
                push_str(&mut s, ")");
                s
            },
            None => "None".to_owned(),
        }
    }

    /// Parses one expression: an integer, a name, or a parenthesized
    /// expression or binary operation.
    pub fn parse_expr(&mut self) -> (r: Result<Expr, String>)
        requires
            old(self).wf(),
        ensures
            final(self).wf(),
            final(self).toks() == old(self).toks(),
            match pexpr(old(self).toks(), old(self).at()) {
                Ok((e, p)) => r matches Ok(x) && x.model() == e && final(self).at() == p,
                Err(m) => r matches Err(x) && x@ == m,
            },
        decreases old(self).toks().len() - old(self).at(),
    {
        let ghost ts = self.toks();
        let ghost pos = self.at();
        proof {
            lemma_pexpr_progress(ts, pos);
        }
        match self.bump() {
            Some(Token::Int(s)) => match parse_i64(s.as_str()) {
                Ok(n) => Ok(Expr::Int(n)),
                Err(e) => {
                    let mut m = "invalid int: ".to_owned();
                    let t = e.message();
                    push_str(&mut m, t.as_str());
                    Err(m)
                },
            },
            Some(Token::Ident(s)) => Ok(Expr::Ident(s)),
            Some(Token::LParen) => {
                let left = match self.parse_expr() {
                    Ok(l) => l,
                    Err(m) => return Err(m),
                };
                let ghost p1 = self.at();
                proof {
                    lemma_pexpr_progress(ts, pos + 1);
                }
                let is_close = match self.peek() {
                    Some(Token::RParen) => true,
                    _ => false,
                };
                if is_close {
                    self.bump();
                    return Ok(left);
                }
                let op = match self.peek() {
                    Some(Token::Plus) => Op::Add,
                    Some(Token::Minus) => Op::Sub,
                    Some(Token::Star) => Op::Mul,
                    Some(Token::Slash) => Op::Div,
                    _ => return Err("unexpected token after '('".to_owned()),
                };
                self.bump();
                let right = match self.parse_expr() {
                    Ok(r) => r,
                    Err(m) => return Err(m),
                };
                match self.bump() {
                    Some(Token::RParen) => Ok(Expr::Binary(Box::new(left), op, Box::new(right))),
                    other => {
                        let mut m = "expected ')', got ".to_owned();
                        let d = Parser::debug_opt(&other);
                        push_str(&mut m, d.as_str());
                        Err(m)
                    },
                }
            },
            other => {
                let mut m = "unexpected token: ".to_owned();
                let d = Parser::debug_opt(&other);
                push_str(&mut m, d.as_str());
                Err(m)
            },
        }
    }
}


impl Parser {
    /// Skips a semicolon, if one is next.
    fn skip_semicolon(&mut self)
        requires
            old(self).wf(),
        ensures
            final(self).wf(),
            final(self).toks() == old(self).toks(),
            final(self).at() == skip_semi(old(self).toks(), old(self).at()),
    {
        let semi = match self.peek() {
            Some(Token::Semicolon) => true,
            _ => false,
        };
        if semi {
            self.bump();
        }
    }

    /// Parses one statement, as `pstmt` describes.
    fn parse_stmt(&mut self) -> (r: Result<Stmt, String>)
        requires
            old(self).wf(),
        ensures
            final(self).wf(),
            final(self).toks() == old(self).toks(),
            match pstmt(old(self).toks(), old(self).at()) {
                Ok((st, p)) => r matches Ok(x) && x.model() == st && final(self).at() == p,
                Err(m) => r matches Err(x) && x@ == m,
            },
    {
        let ghost ts = self.toks();
        let ghost pos = self.at();
        let is_let = match self.peek() {
            Some(Token::Let) => true,
            _ => false,
        };
        if !is_let {
            let expr = match self.parse_expr() {
                Ok(e) => e,
                Err(m) => return Err(m),
            };
            self.skip_semicolon();
            return Ok(Stmt::Expr(expr));
        }
        self.bump();
        let name = match self.bump() {
            Some(Token::Ident(s)) => s,
            other => {
                let mut m = "expected identifier after let, got ".to_owned();
                let d = Parser::debug_opt(&other);
                push_str(&mut m, d.as_str());
                return Err(m);
            },
        };
        let mut ty: Option<Type> = None;
        let colon = match self.peek() {
            Some(Token::Colon) => true,
            _ => false,
        };
        if colon {
            self.bump();
            let t = self.bump();
            proof {
                reveal_strlit("int");
                reveal_strlit("bool");
                assert("int"@.len() != "bool"@.len());
            }
            ty = match &t {
                Some(Token::Ident(s)) => {
                    if str_is(s, "int") {
                        Some(Type::Int)
                    } else if str_is(s, "bool") {
                        Some(Type::Bool)
                    } else {
                        None
                    }
                },
                _ => None,
            };
            if ty.is_none() {
                let mut m = "expected type after ':', got ".to_owned();
                let d = Parser::debug_opt(&t);
                push_str(&mut m, d.as_str());
                return Err(m);
            }
        }
        match self.bump() {
            Some(Token::Assign) => {},
            other => {
                let mut m = "expected '=' after let binding, got ".to_owned();
                let d = Parser::debug_opt(&other);
                push_str(&mut m, d.as_str());
                return Err(m);
            },
        }
        let expr = match self.parse_expr() {
            Ok(e) => e,
            Err(m) => return Err(m),
        };
        self.skip_semicolon();
        Ok(Stmt::Let { name, ty, expr })
    }
}

/// Parses the source text of a program: its tokens, then its statements.
pub fn parse(src: &str) -> (r: Result<Program, String>)
    ensures
        exists|toks: Seq<Token>| #[trigger] lexed_as(src@, toks) && match pprog(toks, 0) {
            Ok(ss) => r matches Ok(p) && stmt_models(p.stmts@) == ss,
            Err(m) => r matches Err(x) && x@ == m,
        },
{
    let tokens = lex(src);
    let ghost ts = tokens@;
    let r = parse_tokens(tokens);
    assert(lexed_as(src@, ts));
    r
}

/// Parses a program: statements until the tokens run out, or the first error.
pub fn parse_tokens(tokens: Vec<Token>) -> (r: Result<Program, String>)
    ensures
        match pprog(tokens@, 0) {
            Ok(ss) => r matches Ok(p) && stmt_models(p.stmts@) == ss,
            Err(m) => r matches Err(x) && x@ == m,
        },
{
    let ghost ts = tokens@;
    let mut parser = Parser::new(tokens);
    let mut prog = Program::new();
    proof {
        assert(stmt_models(prog.stmts@) =~= Seq::empty());
        assert(pprog(ts, 0) == match pprog(ts, 0) {
            Ok(rest) => Ok(Seq::<StmtM>::empty() + rest),
            Err(m) => Err(m),
        }) by {
            if let Ok(rest) = pprog(ts, 0) {
                assert(Seq::<StmtM>::empty() + rest =~= rest);
            }
        }
    }
    while parser.peek().is_some()
        invariant
            parser.wf(),
            ts == tokens@,
            parser.toks() == ts,
            0 <= parser.at() <= ts.len(),
            pprog(ts, 0) == match pprog(ts, parser.at()) {
                Ok(rest) => Ok(stmt_models(prog.stmts@) + rest),
                Err(m) => Err(m),
            },
        decreases ts.len() - parser.at(),
    {
        let ghost pos = parser.at();
        proof {
            lemma_pstmt_progress(ts, pos);
        }
        let st = match parser.parse_stmt() {
            Ok(st) => st,
            Err(m) => {
                proof {
                    assert(pos < ts.len());
                    assert(pstmt(ts, pos) is Err);
                    assert(pprog(ts, pos) == Err::<Seq<StmtM>, Seq<char>>(m@));
                    assert(pprog(ts, 0) == Err::<Seq<StmtM>, Seq<char>>(m@));
                }
                return Err(m);
            },
        };
        let ghost before = prog.stmts@;
        prog.stmts.push(st);
        proof {
            assert(stmt_models(prog.stmts@) =~= stmt_models(before).push(st.model()));
            if let Ok(rest) = pprog(ts, parser.at()) {
                assert(stmt_models(before) + (seq![st.model()] + rest) =~= stmt_models(prog.stmts@) + rest);
            }
        }
    }
    Ok(prog)
}

} // verus!
