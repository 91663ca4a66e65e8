//! Recursive-descent parser from tokens to the syntax tree.
use vstd::prelude::*;
use crate::ast::{ExprS, Expr, Spanned, TypeExpr, UnaryOp, BinaryOp, Binding, CaseArm, Param, FunctionDecl, ClassDecl, ClassMember, ProtocolDecl, ProtocolMethod, MacroParamKind, MacroParam, MacroDecl, Program};
use crate::lexer::{Span, Token, TokenKind};
use crate::text::str_is;
use super::error::ParseError;
use super::program_grammar::{
    FunV, ClassV, ProtoV, MacroV, MemberV, MParamV, PMethodV, ProgAcc, p_base, fun_view, fun_views, member_view, member_views, class_view, class_views,
    pmethod_view, pmethod_views, proto_view, proto_views, mparam_view, mparam_views, macro_view, macro_views,
    p_body, p_function, p_method, p_method_member, p_member, p_members, p_class, p_names, p_pmethods,
    p_protocol, p_mparams, p_mparams_from, p_macro, p_items, p_program, empty_acc, entry_of, acc_of,
    fun_result, class_result, member_result, members_result, names_result, pmethods_result, proto_result,
    mparams_result, macro_result, program_result,
};
use super::grammar::{err_at, p_type, p_types, p_types_more, p_type_suffix, tview, tviews, type_result, PErrV, TypeExprV};
use super::grammar::{
    SExprV, BindingV, ArmV, ParamV, eview, eviews, lemma_nview, p_name, p_paren, p_vector, bviews, armviews,
    pairviews, oview, otview, pview, pviews, kind_at, skip_ann,
    lambda_params_ahead, lambda_start, p_ann, p_params, p_params_from, p_expr, p_assign, p_type_ops,
    p_type_ops_more, p_bin, p_bin_more, p_pow, p_unary, p_postfix, p_postfix_more, p_args, p_args_from,
    p_elems, p_primary, p_lambda, p_let, p_bindings, p_if, p_elifs, p_while, p_for, p_case,
    p_arms, p_with, p_new, p_block, p_stmts, p_macro_match, p_mcases, expr_result,
    list_result, params_result,
};

verus! {

pub struct Parser {
    tokens: Vec<Token>,
    pos: usize,
    /// While set, `as` is not read as a cast (inside `with (... as x)`).
    forbid_as_cast: bool,
    /// While set, `|` is not read as logical or (inside `[...]`).
    forbid_pipe_or: bool,
}

/// `sp` begins where `tok` begins (offset, line and column).
pub open spec fn starts_at(sp: Span, tok: Span) -> bool {
    sp.start == tok.start && sp.line == tok.line && sp.col == tok.col
}

/// A token sequence the parser can run on: it ends with `Eof`.
pub open spec fn well_ended(toks: Seq<Token>) -> bool {
    toks.len() > 0 && toks[toks.len() - 1].kind is Eof
}

fn merge(a: Span, b: Span) -> (r: Span)
    ensures
        r == (Span { start: a.start, end: b.end, line: a.line, col: a.col }),
{
    Span::new(a.start, b.end, a.line, a.col)
}

impl Parser {
    pub closed spec fn toks(&self) -> Seq<Token> {
        self.tokens@
    }

    pub closed spec fn at(&self) -> int {
        self.pos as int
    }

    /// `as` is not read as a cast.
    pub closed spec fn nc(&self) -> bool {
        self.forbid_as_cast
    }

    /// `|` is not read as logical or.
    pub closed spec fn np(&self) -> bool {
        self.forbid_pipe_or
    }

    pub closed spec fn wf(&self) -> bool {
        &&& well_ended(self.tokens@)
        &&& self.pos < self.tokens@.len()
    }

    /// Kind of the token under the cursor.
    pub open spec fn cur_kind(&self) -> TokenKind {
        self.toks()[self.at()].kind
    }

    /// Span of the token under the cursor.
    pub open spec fn cur_span(&self) -> Span {
        self.toks()[self.at()].span
    }

    /// `next` is this parser after some steps: same tokens, cursor not behind.
    pub closed spec fn steps_to(&self, next: &Parser) -> bool {
        &&& next.wf()
        &&& next.tokens@ == self.tokens@
        &&& self.pos <= next.pos
    }

    /// Same context flags.
    pub closed spec fn same_flags(&self, next: &Parser) -> bool {
        next.forbid_as_cast == self.forbid_as_cast && next.forbid_pipe_or == self.forbid_pipe_or
    }

    /// What every expression parser promises on success: at least one token
    /// consumed, flags as they were, and the node's span starts at the first
    /// token consumed.
    pub open spec fn expr_done(&self, next: &Parser, r: Result<ExprS, ParseError>) -> bool {
        &&& self.steps_to(next)
        &&& (r is Ok ==> self.at() < next.at() && self.same_flags(next) && starts_at(r->Ok_0.span, self.cur_span()))
    }

    pub fn new(tokens: Vec<Token>) -> (p: Self)
        requires
            well_ended(tokens@),
        ensures
            p.wf(),
            p.toks() == tokens@,
            p.at() == 0,
            !p.nc(),
            !p.np(),
    {
        Parser { tokens, pos: 0, forbid_as_cast: false, forbid_pipe_or: false }
    }

    fn peek(&self) -> (r: &TokenKind)
        requires
            self.wf(),
        ensures
            *r == self.tokens@[self.pos as int].kind,
    {
        &self.tokens[self.pos].kind
    }

    fn span(&self) -> (r: Span)
        requires
            self.wf(),
        ensures
            r == self.cur_span(),
    {
        self.tokens[self.pos].span
    }

    fn is_at_end(&self) -> (r: bool)
        requires
            self.wf(),
        ensures
            r == (self.tokens@[self.pos as int].kind is Eof),
    {
        match self.peek() {
            TokenKind::Eof => true,
            _ => false,
        }
    }

    /// Moves past the current token unless it is the end; returns its span.
    fn advance(&mut self) -> (r: Span)
        requires
            old(self).wf(),
        ensures
            old(self).steps_to(final(self)),
            old(self).same_flags(final(self)),
            r == old(self).cur_span(),
            old(self).tokens@[old(self).pos as int].kind is Eof ==> final(self).pos == old(self).pos,
            !(old(self).tokens@[old(self).pos as int].kind is Eof) ==> final(self).pos == old(self).pos + 1,
    {
        let sp = self.tokens[self.pos].span;
        if !self.is_at_end() {
            assert(self.pos + 1 < self.tokens.len());
            self.pos = self.pos + 1;
        }
        sp
    }

    /// The current token is of the same variant as `kind`.
    fn check(&self, kind: &TokenKind) -> (r: bool)
        requires
            self.wf(),
        ensures
            r == (self.tokens@[self.pos as int].kind.spec_tag() == kind.spec_tag()),
    {
        self.peek().tag() == kind.tag()
    }

    fn matches(&mut self, kind: &TokenKind) -> (r: bool)
        requires
            old(self).wf(),
            !(*kind is Eof),
        ensures
            old(self).steps_to(final(self)),
            old(self).same_flags(final(self)),
            r == (old(self).tokens@[old(self).pos as int].kind.spec_tag() == kind.spec_tag()),
            r ==> final(self).pos == old(self).pos + 1,
            !r ==> final(self).pos == old(self).pos,
    {
        if self.check(kind) {
            self.advance();
            true
        } else {
            false
        }
    }

    /// The error for an unexpected current token.
    fn error_here(&self, label: &str) -> (e: ParseError)
        requires
            self.wf(),
        ensures
            e@ == err_at(self.toks(), self.at(), label@),
    {
        if self.is_at_end() {
            ParseError::UnexpectedEof { expected: label.to_owned() }
        } else {
            ParseError::Unexpected { expected: label.to_owned(), got: self.peek().copy(), span: self.span() }
        }
    }

    fn expect(&mut self, kind: &TokenKind, label: &str) -> (r: Result<Span, ParseError>)
        requires
            old(self).wf(),
            !(*kind is Eof),
        ensures
            old(self).steps_to(final(self)),
            old(self).same_flags(final(self)),
            r is Ok <==> old(self).tokens@[old(self).pos as int].kind.spec_tag() == kind.spec_tag(),
            r is Ok ==> final(self).pos == old(self).pos + 1 && r->Ok_0 == old(self).cur_span(),
            r is Err ==> r->Err_0@ == err_at(old(self).toks(), old(self).at(), label@),
    {
        if self.check(kind) {
            Ok(self.advance())
        } else {
            Err(self.error_here(label))
        }
    }

    fn expect_ident(&mut self, label: &str) -> (r: Result<(String, Span), ParseError>)
        requires
            old(self).wf(),
        ensures
            old(self).steps_to(final(self)),
            old(self).same_flags(final(self)),
            r is Ok <==> old(self).tokens@[old(self).pos as int].kind is Ident,
            r is Ok ==> final(self).pos == old(self).pos + 1 && r->Ok_0.1 == old(self).cur_span()
                && r->Ok_0.0 == old(self).tokens@[old(self).pos as int].kind->Ident_0,
            r is Err ==> r->Err_0@ == err_at(old(self).toks(), old(self).at(), label@),
    {
        match self.peek() {
            TokenKind::Ident(name) => {
                let n = name.clone();
                let sp = self.advance();
                Ok((n, sp))
            },
            _ => Err(self.error_here(label)),
        }
    }
}


// ── Expressions ──────────────────────────────────────────────────────────────

impl Parser {
    /// Parses one expression (without a trailing `;`).
    pub fn parse_expr(&mut self) -> (r: Result<ExprS, ParseError>)
        requires
            old(self).wf(),
        ensures
            old(self).expr_done(final(self), r),
            expr_result(r, final(self).at()) == p_expr(old(self).toks(), old(self).at(), old(self).nc(), old(self).np()),
            old(self).cur_kind() is Let && r is Ok ==> r->Ok_0.node is Let,
            old(self).cur_kind() is If && r is Ok ==> r->Ok_0.node is If,
            old(self).cur_kind() is While && r is Ok ==> r->Ok_0.node is While,
            old(self).cur_kind() is For && r is Ok ==> r->Ok_0.node is For,
            old(self).cur_kind() is Case && r is Ok ==> r->Ok_0.node is Case,
            old(self).cur_kind() is With && r is Ok ==> r->Ok_0.node is With,
        decreases old(self).toks().len() - old(self).at(), 29nat,
    {
        proof {
            reveal_with_fuel(p_expr, 1);
            reveal_with_fuel(p_let, 1);
            reveal_with_fuel(p_if, 1);
            reveal_with_fuel(p_while, 1);
            reveal_with_fuel(p_for, 1);
            reveal_with_fuel(p_case, 1);
            reveal_with_fuel(p_with, 1);
            reveal_with_fuel(p_assign, 1);
        }
        match self.peek() {
            TokenKind::Let => self.parse_let(),
            TokenKind::If => self.parse_if(),
            TokenKind::While => self.parse_while(),
            TokenKind::For => self.parse_for(),
            TokenKind::Case => self.parse_case(),
            TokenKind::With => self.parse_with(),
            _ => self.parse_assign(),
        }
    }

    /// `target := value`, right-associative.
    fn parse_assign(&mut self) -> (r: Result<ExprS, ParseError>)
        requires
            old(self).wf(),
        ensures
            old(self).expr_done(final(self), r),
            expr_result(r, final(self).at()) == p_assign(old(self).toks(), old(self).at(), old(self).nc(), old(self).np()),
        decreases old(self).toks().len() - old(self).at(), 28nat,
    {
        proof {
            reveal_with_fuel(p_assign, 1);
            reveal_with_fuel(p_type_ops, 1);
        }
        let lhs = match self.parse_type_ops() {
            Ok(x) => x,
            Err(e) => {
                return Err(e);
            },
        };
        if self.matches(&TokenKind::ColonEq) {
            let rhs = match self.parse_assign() {
                Ok(x) => x,
                Err(e) => {
                    return Err(e);
                },
            };
            let span = Span::new(lhs.span.start, rhs.span.end, lhs.span.line, lhs.span.col);
            let r = Spanned::new(Expr::Assign { target: Box::new(lhs), value: Box::new(rhs) }, span);
            proof {
                lemma_nview(r.node);
            }
            return Ok(r);
        }
        Ok(lhs)
    }

    /// `expr is T` and `expr as T`.
    fn parse_type_ops(&mut self) -> (r: Result<ExprS, ParseError>)
        requires
            old(self).wf(),
        ensures
            old(self).expr_done(final(self), r),
            expr_result(r, final(self).at()) == p_type_ops(old(self).toks(), old(self).at(), old(self).nc(), old(self).np()),
        decreases old(self).toks().len() - old(self).at(), 27nat,
    {
        proof {
            reveal_with_fuel(p_type_ops, 1);
            reveal_with_fuel(p_bin, 1);
            reveal_with_fuel(p_type_ops_more, 1);
        }
        let ghost t = self.toks();
        let ghost p = self.at();
        let ghost nc = self.nc();
        let ghost np = self.np();
        let mut expr = match self.parse_or() {
            Ok(x) => x,
            Err(e) => {
                return Err(e);
            },
        };
        loop
            invariant
                old(self).steps_to(self),
                old(self).same_flags(self),
                old(self).at() < self.at(),
                starts_at(expr.span, old(self).cur_span()),
                t == old(self).toks(),
                p == old(self).at(),
                nc == self.nc(),
                np == self.np(),
                nc == old(self).nc(),
                np == old(self).np(),
                p_type_ops(t, p, nc, np) == p_type_ops_more(t, self.at(), eview(expr), nc, np),
            ensures
                old(self).steps_to(self),
                old(self).same_flags(self),
                old(self).at() < self.at(),
                starts_at(expr.span, old(self).cur_span()),
                p_type_ops(t, p, nc, np) == Ok::<(SExprV, int), PErrV>((eview(expr), self.at())),
            decreases self.tokens@.len() - self.pos,
        {
            proof {
                reveal_with_fuel(p_type_ops_more, 1);
                reveal_with_fuel(p_type_ops, 1);
                reveal_with_fuel(p_bin, 1);
            }
            if self.matches(&TokenKind::Is) {
                let (ty_name, type_span) = match self.expect_ident("type name") {
                    Ok(x) => x,
                    Err(e) => {
                        return Err(e);
                    },
                };
                let span = Span::new(expr.span.start, type_span.end, expr.span.line, expr.span.col);
                expr = Spanned::new(Expr::IsInstance { expr: Box::new(expr), ty_name }, span);
                proof {
                    lemma_nview(expr.node);
                }
            } else if !self.forbid_as_cast && self.matches(&TokenKind::As) {
                let (ty_name, type_span) = match self.expect_ident("type name") {
                    Ok(x) => x,
                    Err(e) => {
                        return Err(e);
                    },
                };
                let span = Span::new(expr.span.start, type_span.end, expr.span.line, expr.span.col);
                expr = Spanned::new(Expr::Cast { expr: Box::new(expr), ty_name }, span);
                proof {
                    lemma_nview(expr.node);
                }
            } else {
                break;
            }
        }
        Ok(expr)
    }

    fn parse_or(&mut self) -> (r: Result<ExprS, ParseError>)
        requires
            old(self).wf(),
        ensures
            old(self).expr_done(final(self), r),
            expr_result(r, final(self).at()) == p_bin(old(self).toks(), old(self).at(), old(self).nc(), old(self).np(), 1),
        decreases old(self).toks().len() - old(self).at(), 26nat,
    {
        proof {
            reveal_with_fuel(p_bin, 1);
            reveal_with_fuel(p_bin_more, 1);
        }
        let ghost t = self.toks();
        let ghost p = self.at();
        let ghost nc = self.nc();
        let ghost np = self.np();
        let mut left = match self.parse_and() {
            Ok(x) => x,
            Err(e) => {
                return Err(e);
            },
        };
        loop
            invariant
                old(self).steps_to(self),
                old(self).same_flags(self),
                old(self).at() < self.at(),
                starts_at(left.span, old(self).cur_span()),
                t == old(self).toks(),
                p == old(self).at(),
                nc == self.nc(),
                np == self.np(),
                nc == old(self).nc(),
                np == old(self).np(),
                p_bin(t, p, nc, np, 1) == p_bin_more(t, self.at(), eview(left), nc, np, 1),
            ensures
                old(self).steps_to(self),
                old(self).same_flags(self),
                old(self).at() < self.at(),
                starts_at(left.span, old(self).cur_span()),
                p_bin(t, p, nc, np, 1) == Ok::<(SExprV, int), PErrV>((eview(left), self.at())),
            decreases self.tokens@.len() - self.pos,
        {
            proof {
                reveal_with_fuel(p_bin_more, 1);
                reveal_with_fuel(p_bin, 1);
                reveal_with_fuel(p_pow, 1);
            }
            if self.forbid_pipe_or || !self.matches(&TokenKind::Pipe) {
                break;
            }
            let right = match self.parse_and() {
                Ok(x) => x,
                Err(e) => {
                    return Err(e);
                },
            };
            let span = merge(left.span, right.span);
            left = Spanned::new(Expr::Binary { op: BinaryOp::Or, left: Box::new(left), right: Box::new(right) }, span);
            proof {
                lemma_nview(left.node);
            }
        }
        Ok(left)
    }

    fn parse_and(&mut self) -> (r: Result<ExprS, ParseError>)
        requires
            old(self).wf(),
        ensures
            old(self).expr_done(final(self), r),
            expr_result(r, final(self).at()) == p_bin(old(self).toks(), old(self).at(), old(self).nc(), old(self).np(), 2),
        decreases old(self).toks().len() - old(self).at(), 25nat,
    {
        proof {
            reveal_with_fuel(p_bin, 1);
            reveal_with_fuel(p_bin_more, 1);
        }
        let ghost t = self.toks();
        let ghost p = self.at();
        let ghost nc = self.nc();
        let ghost np = self.np();
        let mut left = match self.parse_equality() {
            Ok(x) => x,
            Err(e) => {
                return Err(e);
            },
        };
        loop
            invariant
                old(self).steps_to(self),
                old(self).same_flags(self),
                old(self).at() < self.at(),
                starts_at(left.span, old(self).cur_span()),
                t == old(self).toks(),
                p == old(self).at(),
                nc == self.nc(),
                np == self.np(),
                nc == old(self).nc(),
                np == old(self).np(),
                p_bin(t, p, nc, np, 2) == p_bin_more(t, self.at(), eview(left), nc, np, 2),
            ensures
                old(self).steps_to(self),
                old(self).same_flags(self),
                old(self).at() < self.at(),
                starts_at(left.span, old(self).cur_span()),
                p_bin(t, p, nc, np, 2) == Ok::<(SExprV, int), PErrV>((eview(left), self.at())),
            decreases self.tokens@.len() - self.pos,
        {
            proof {
                reveal_with_fuel(p_bin_more, 1);
                reveal_with_fuel(p_bin, 1);
                reveal_with_fuel(p_pow, 1);
            }
            if !self.matches(&TokenKind::Amp) {
                break;
            }
            let right = match self.parse_equality() {
                Ok(x) => x,
                Err(e) => {
                    return Err(e);
                },
            };
            let span = merge(left.span, right.span);
            left = Spanned::new(Expr::Binary { op: BinaryOp::And, left: Box::new(left), right: Box::new(right) }, span);
            proof {
                lemma_nview(left.node);
            }
        }
        Ok(left)
    }

    fn parse_equality(&mut self) -> (r: Result<ExprS, ParseError>)
        requires
            old(self).wf(),
        ensures
            old(self).expr_done(final(self), r),
            expr_result(r, final(self).at()) == p_bin(old(self).toks(), old(self).at(), old(self).nc(), old(self).np(), 3),
        decreases old(self).toks().len() - old(self).at(), 24nat,
    {
        proof {
            reveal_with_fuel(p_bin, 1);
            reveal_with_fuel(p_bin_more, 1);
        }
        let ghost t = self.toks();
        let ghost p = self.at();
        let ghost nc = self.nc();
        let ghost np = self.np();
        let mut left = match self.parse_comparison() {
            Ok(x) => x,
            Err(e) => {
                return Err(e);
            },
        };
        loop
            invariant
                old(self).steps_to(self),
                old(self).same_flags(self),
                old(self).at() < self.at(),
                starts_at(left.span, old(self).cur_span()),
                t == old(self).toks(),
                p == old(self).at(),
                nc == self.nc(),
                np == self.np(),
                nc == old(self).nc(),
                np == old(self).np(),
                p_bin(t, p, nc, np, 3) == p_bin_more(t, self.at(), eview(left), nc, np, 3),
            ensures
                old(self).steps_to(self),
                old(self).same_flags(self),
                old(self).at() < self.at(),
                starts_at(left.span, old(self).cur_span()),
                p_bin(t, p, nc, np, 3) == Ok::<(SExprV, int), PErrV>((eview(left), self.at())),
            decreases self.tokens@.len() - self.pos,
        {
            proof {
                reveal_with_fuel(p_bin_more, 1);
                reveal_with_fuel(p_bin, 1);
                reveal_with_fuel(p_pow, 1);
            }
            let op = match self.peek() {
                TokenKind::EqEq => BinaryOp::Eq,
                TokenKind::BangEq => BinaryOp::Ne,
                _ => break,
            };
            self.advance();
            let right = match self.parse_comparison() {
                Ok(x) => x,
                Err(e) => {
                    return Err(e);
                },
            };
            let span = merge(left.span, right.span);
            left = Spanned::new(Expr::Binary { op, left: Box::new(left), right: Box::new(right) }, span);
            proof {
                lemma_nview(left.node);
            }
        }
        Ok(left)
    }

    fn parse_comparison(&mut self) -> (r: Result<ExprS, ParseError>)
        requires
            old(self).wf(),
        ensures
            old(self).expr_done(final(self), r),
            expr_result(r, final(self).at()) == p_bin(old(self).toks(), old(self).at(), old(self).nc(), old(self).np(), 4),
        decreases old(self).toks().len() - old(self).at(), 23nat,
    {
        proof {
            reveal_with_fuel(p_bin, 1);
            reveal_with_fuel(p_bin_more, 1);
        }
        let ghost t = self.toks();
        let ghost p = self.at();
        let ghost nc = self.nc();
        let ghost np = self.np();
        let mut left = match self.parse_concat() {
            Ok(x) => x,
            Err(e) => {
                return Err(e);
            },
        };
        loop
            invariant
                old(self).steps_to(self),
                old(self).same_flags(self),
                old(self).at() < self.at(),
                starts_at(left.span, old(self).cur_span()),
                t == old(self).toks(),
                p == old(self).at(),
                nc == self.nc(),
                np == self.np(),
                nc == old(self).nc(),
                np == old(self).np(),
                p_bin(t, p, nc, np, 4) == p_bin_more(t, self.at(), eview(left), nc, np, 4),
            ensures
                old(self).steps_to(self),
                old(self).same_flags(self),
                old(self).at() < self.at(),
                starts_at(left.span, old(self).cur_span()),
                p_bin(t, p, nc, np, 4) == Ok::<(SExprV, int), PErrV>((eview(left), self.at())),
            decreases self.tokens@.len() - self.pos,
        {
            proof {
                reveal_with_fuel(p_bin_more, 1);
                reveal_with_fuel(p_bin, 1);
                reveal_with_fuel(p_pow, 1);
            }
            let op = match self.peek() {
                TokenKind::Lt => BinaryOp::Lt,
                TokenKind::Le => BinaryOp::Le,
                TokenKind::Gt => BinaryOp::Gt,
                TokenKind::Ge => BinaryOp::Ge,
                _ => break,
            };
            self.advance();
            let right = match self.parse_concat() {
                Ok(x) => x,
                Err(e) => {
                    return Err(e);
                },
            };
            let span = merge(left.span, right.span);
            left = Spanned::new(Expr::Binary { op, left: Box::new(left), right: Box::new(right) }, span);
            proof {
                lemma_nview(left.node);
            }
        }
        Ok(left)
    }

    fn parse_concat(&mut self) -> (r: Result<ExprS, ParseError>)
        requires
            old(self).wf(),
        ensures
            old(self).expr_done(final(self), r),
            expr_result(r, final(self).at()) == p_bin(old(self).toks(), old(self).at(), old(self).nc(), old(self).np(), 5),
        decreases old(self).toks().len() - old(self).at(), 22nat,
    {
        proof {
            reveal_with_fuel(p_bin, 1);
            reveal_with_fuel(p_bin_more, 1);
        }
        let ghost t = self.toks();
        let ghost p = self.at();
        let ghost nc = self.nc();
        let ghost np = self.np();
        let mut left = match self.parse_add() {
            Ok(x) => x,
            Err(e) => {
                return Err(e);
            },
        };
        loop
            invariant
                old(self).steps_to(self),
                old(self).same_flags(self),
                old(self).at() < self.at(),
                starts_at(left.span, old(self).cur_span()),
                t == old(self).toks(),
                p == old(self).at(),
                nc == self.nc(),
                np == self.np(),
                nc == old(self).nc(),
                np == old(self).np(),
                p_bin(t, p, nc, np, 5) == p_bin_more(t, self.at(), eview(left), nc, np, 5),
            ensures
                old(self).steps_to(self),
                old(self).same_flags(self),
                old(self).at() < self.at(),
                starts_at(left.span, old(self).cur_span()),
                p_bin(t, p, nc, np, 5) == Ok::<(SExprV, int), PErrV>((eview(left), self.at())),
            decreases self.tokens@.len() - self.pos,
        {
            proof {
                reveal_with_fuel(p_bin_more, 1);
                reveal_with_fuel(p_bin, 1);
                reveal_with_fuel(p_pow, 1);
            }
            let op = match self.peek() {
                TokenKind::At => BinaryOp::Concat,
                TokenKind::AtAt => BinaryOp::ConcatSpace,
                _ => break,
            };
            self.advance();
            let right = match self.parse_add() {
                Ok(x) => x,
                Err(e) => {
                    return Err(e);
                },
            };
            let span = merge(left.span, right.span);
            left = Spanned::new(Expr::Binary { op, left: Box::new(left), right: Box::new(right) }, span);
            proof {
                lemma_nview(left.node);
            }
        }
        Ok(left)
    }

    fn parse_add(&mut self) -> (r: Result<ExprS, ParseError>)
        requires
            old(self).wf(),
        ensures
            old(self).expr_done(final(self), r),
            expr_result(r, final(self).at()) == p_bin(old(self).toks(), old(self).at(), old(self).nc(), old(self).np(), 6),
        decreases old(self).toks().len() - old(self).at(), 21nat,
    {
        proof {
            reveal_with_fuel(p_bin, 1);
            reveal_with_fuel(p_bin_more, 1);
        }
        let ghost t = self.toks();
        let ghost p = self.at();
        let ghost nc = self.nc();
        let ghost np = self.np();
        let mut left = match self.parse_mul() {
            Ok(x) => x,
            Err(e) => {
                return Err(e);
            },
        };
        loop
            invariant
                old(self).steps_to(self),
                old(self).same_flags(self),
                old(self).at() < self.at(),
                starts_at(left.span, old(self).cur_span()),
                t == old(self).toks(),
                p == old(self).at(),
                nc == self.nc(),
                np == self.np(),
                nc == old(self).nc(),
                np == old(self).np(),
                p_bin(t, p, nc, np, 6) == p_bin_more(t, self.at(), eview(left), nc, np, 6),
            ensures
                old(self).steps_to(self),
                old(self).same_flags(self),
                old(self).at() < self.at(),
                starts_at(left.span, old(self).cur_span()),
                p_bin(t, p, nc, np, 6) == Ok::<(SExprV, int), PErrV>((eview(left), self.at())),
            decreases self.tokens@.len() - self.pos,
        {
            proof {
                reveal_with_fuel(p_bin_more, 1);
                reveal_with_fuel(p_bin, 1);
                reveal_with_fuel(p_pow, 1);
            }
            let op = match self.peek() {
                TokenKind::Plus => BinaryOp::Add,
                TokenKind::Minus => BinaryOp::Sub,
                _ => break,
            };
            self.advance();
            let right = match self.parse_mul() {
                Ok(x) => x,
                Err(e) => {
                    return Err(e);
                },
            };
            let span = merge(left.span, right.span);
            left = Spanned::new(Expr::Binary { op, left: Box::new(left), right: Box::new(right) }, span);
            proof {
                lemma_nview(left.node);
            }
        }
        Ok(left)
    }

    fn parse_mul(&mut self) -> (r: Result<ExprS, ParseError>)
        requires
            old(self).wf(),
        ensures
            old(self).expr_done(final(self), r),
            expr_result(r, final(self).at()) == p_bin(old(self).toks(), old(self).at(), old(self).nc(), old(self).np(), 7),
        decreases old(self).toks().len() - old(self).at(), 20nat,
    {
        proof {
            reveal_with_fuel(p_bin, 1);
            reveal_with_fuel(p_pow, 1);
            reveal_with_fuel(p_bin_more, 1);
        }
        let ghost t = self.toks();
        let ghost p = self.at();
        let ghost nc = self.nc();
        let ghost np = self.np();
        let mut left = match self.parse_pow() {
            Ok(x) => x,
            Err(e) => {
                return Err(e);
            },
        };
        loop
            invariant
                old(self).steps_to(self),
                old(self).same_flags(self),
                old(self).at() < self.at(),
                starts_at(left.span, old(self).cur_span()),
                t == old(self).toks(),
                p == old(self).at(),
                nc == self.nc(),
                np == self.np(),
                nc == old(self).nc(),
                np == old(self).np(),
                p_bin(t, p, nc, np, 7) == p_bin_more(t, self.at(), eview(left), nc, np, 7),
            ensures
                old(self).steps_to(self),
                old(self).same_flags(self),
                old(self).at() < self.at(),
                starts_at(left.span, old(self).cur_span()),
                p_bin(t, p, nc, np, 7) == Ok::<(SExprV, int), PErrV>((eview(left), self.at())),
            decreases self.tokens@.len() - self.pos,
        {
            proof {
                reveal_with_fuel(p_bin_more, 1);
                reveal_with_fuel(p_bin, 1);
                reveal_with_fuel(p_pow, 1);
            }
            let op = match self.peek() {
                TokenKind::Star => BinaryOp::Mul,
                TokenKind::Slash => BinaryOp::Div,
                TokenKind::Percent => BinaryOp::Mod,
                _ => break,
            };
            self.advance();
            let right = match self.parse_pow() {
                Ok(x) => x,
                Err(e) => {
                    return Err(e);
                },
            };
            let span = merge(left.span, right.span);
            left = Spanned::new(Expr::Binary { op, left: Box::new(left), right: Box::new(right) }, span);
            proof {
                lemma_nview(left.node);
            }
        }
        Ok(left)
    }

    /// `a ^ b ^ c` is `a ^ (b ^ c)`.
    fn parse_pow(&mut self) -> (r: Result<ExprS, ParseError>)
        requires
            old(self).wf(),
        ensures
            old(self).expr_done(final(self), r),
            expr_result(r, final(self).at()) == p_pow(old(self).toks(), old(self).at(), old(self).nc(), old(self).np()),
        decreases old(self).toks().len() - old(self).at(), 19nat,
    {
        proof {
            reveal_with_fuel(p_pow, 1);
            reveal_with_fuel(p_unary, 1);
        }
        let base = match self.parse_unary() {
            Ok(x) => x,
            Err(e) => {
                return Err(e);
            },
        };
        if self.matches(&TokenKind::Caret) {
            let exp = match self.parse_pow() {
                Ok(x) => x,
                Err(e) => {
                    return Err(e);
                },
            };
            let span = merge(base.span, exp.span);
            let r = Spanned::new(Expr::Binary { op: BinaryOp::Pow, left: Box::new(base), right: Box::new(exp) }, span);
            proof {
                lemma_nview(r.node);
            }
            return Ok(r);
        }
        Ok(base)
    }

    fn parse_unary(&mut self) -> (r: Result<ExprS, ParseError>)
        requires
            old(self).wf(),
        ensures
            old(self).expr_done(final(self), r),
            expr_result(r, final(self).at()) == p_unary(old(self).toks(), old(self).at(), old(self).nc(), old(self).np()),
        decreases old(self).toks().len() - old(self).at(), 18nat,
    {
        proof {
            reveal_with_fuel(p_unary, 1);
            reveal_with_fuel(p_postfix, 1);
        }
        let start = self.span();
        if self.matches(&TokenKind::Minus) {
            let operand = match self.parse_unary() {
                Ok(x) => x,
                Err(e) => {
                    return Err(e);
                },
            };
            let span = Span::new(start.start, operand.span.end, start.line, start.col);
            let r = Spanned::new(Expr::Unary { op: UnaryOp::Neg, operand: Box::new(operand) }, span);
            proof {
                lemma_nview(r.node);
            }
            return Ok(r);
        }
        if self.matches(&TokenKind::Bang) {
            let operand = match self.parse_unary() {
                Ok(x) => x,
                Err(e) => {
                    return Err(e);
                },
            };
            let span = Span::new(start.start, operand.span.end, start.line, start.col);
            let r = Spanned::new(Expr::Unary { op: UnaryOp::Not, operand: Box::new(operand) }, span);
            proof {
                lemma_nview(r.node);
            }
            return Ok(r);
        }
        self.parse_postfix()
    }

    /// `obj.field`, `obj.method(args)` and `arr[idx]`.
    #[verifier::spinoff_prover]
    fn parse_postfix(&mut self) -> (r: Result<ExprS, ParseError>)
        requires
            old(self).wf(),
        ensures
            old(self).expr_done(final(self), r),
            expr_result(r, final(self).at()) == p_postfix(old(self).toks(), old(self).at(), old(self).nc(), old(self).np()),
        decreases old(self).toks().len() - old(self).at(), 17nat,
    {
        proof {
            reveal_with_fuel(p_postfix, 1);
            reveal_with_fuel(p_primary, 1);
            reveal_with_fuel(p_args, 1);
            reveal_with_fuel(p_expr, 1);
            reveal_with_fuel(p_postfix_more, 1);
        }
        let ghost t = self.toks();
        let ghost p = self.at();
        let ghost nc = self.nc();
        let ghost np = self.np();
        let mut expr = match self.parse_primary() {
            Ok(x) => x,
            Err(e) => {
                return Err(e);
            },
        };
        loop
            invariant
                old(self).steps_to(self),
                old(self).same_flags(self),
                old(self).at() < self.at(),
                starts_at(expr.span, old(self).cur_span()),
                t == old(self).toks(),
                p == old(self).at(),
                nc == self.nc(),
                np == self.np(),
                nc == old(self).nc(),
                np == old(self).np(),
                p_postfix(t, p, nc, np) == p_postfix_more(t, self.at(), eview(expr), nc, np),
            ensures
                old(self).steps_to(self),
                old(self).same_flags(self),
                old(self).at() < self.at(),
                starts_at(expr.span, old(self).cur_span()),
                p_postfix(t, p, nc, np) == Ok::<(SExprV, int), PErrV>((eview(expr), self.at())),
            decreases self.tokens@.len() - self.pos,
        {
            proof {
                reveal_with_fuel(p_postfix_more, 1);
                reveal_with_fuel(p_postfix, 1);
                reveal_with_fuel(p_primary, 1);
                reveal_with_fuel(p_args, 1);
                reveal_with_fuel(p_expr, 1);
            }
            if self.matches(&TokenKind::Dot) {
                let (member, _) = match self.expect_ident("field or method name") {
                    Ok(x) => x,
                    Err(e) => {
                        return Err(e);
                    },
                };
                if self.matches(&TokenKind::LParen) {
                    let args = match self.parse_args() {
                        Ok(x) => x,
                        Err(e) => {
                            return Err(e);
                        },
                    };
                    let end = match self.expect(&TokenKind::RParen, "')'") {
                        Ok(x) => x,
                        Err(e) => {
                            return Err(e);
                        },
                    };
                    let span = Span::new(expr.span.start, end.end, expr.span.line, expr.span.col);
                    expr = Spanned::new(Expr::MethodCall { object: Box::new(expr), method: member, args }, span);
                    proof {
                        lemma_nview(expr.node);
                    }
                    proof {
                        lemma_nview(expr.node);
                    }
                } else {
                    let here = self.span();
                    let span = Span::new(expr.span.start, here.start, expr.span.line, expr.span.col);
                    expr = Spanned::new(Expr::FieldAccess { object: Box::new(expr), field: member }, span);
                    proof {
                        lemma_nview(expr.node);
                    }
                }
            } else if self.matches(&TokenKind::LBracket) {
                let index = match self.parse_expr() {
                    Ok(x) => x,
                    Err(e) => {
                        return Err(e);
                    },
                };
                let end = match self.expect(&TokenKind::RBracket, "']'") {
                    Ok(x) => x,
                    Err(e) => {
                        return Err(e);
                    },
                };
                let span = Span::new(expr.span.start, end.end, expr.span.line, expr.span.col);
                expr = Spanned::new(Expr::Index { array: Box::new(expr), index: Box::new(index) }, span);
                proof {
                    lemma_nview(expr.node);
                }
            } else {
                break;
            }
        }
        Ok(expr)
    }

    fn unexpected_expression(&self) -> (e: ParseError)
        requires
            self.wf(),
        ensures
            e@ == err_at(self.toks(), self.at(), "expression"@),
    {
        self.error_here("expression")
    }

    #[verifier::spinoff_prover]
    fn parse_primary(&mut self) -> (r: Result<ExprS, ParseError>)
        requires
            old(self).wf(),
        ensures
            old(self).expr_done(final(self), r),
            expr_result(r, final(self).at()) == p_primary(old(self).toks(), old(self).at(), old(self).nc(), old(self).np()),
            old(self).tokens@[old(self).pos as int].kind is Number && r is Ok ==> r->Ok_0.node
                == Expr::Number(old(self).tokens@[old(self).pos as int].kind->Number_0) && final(self).at()
                == old(self).at() + 1,
            old(self).tokens@[old(self).pos as int].kind is StringLit && r is Ok ==> r->Ok_0.node
                == Expr::Str(old(self).tokens@[old(self).pos as int].kind->StringLit_0) && final(self).at()
                == old(self).at() + 1,
            old(self).tokens@[old(self).pos as int].kind is Eof ==> r is Err,
        decreases old(self).toks().len() - old(self).at(), 16nat,
    {
        proof {
            reveal_with_fuel(p_primary, 1);
            reveal_with_fuel(p_if, 1);
            reveal_with_fuel(p_let, 1);
            reveal_with_fuel(p_while, 1);
            reveal_with_fuel(p_for, 1);
            reveal_with_fuel(p_case, 1);
            reveal_with_fuel(p_with, 1);
            reveal_with_fuel(p_name, 1);
            reveal_with_fuel(p_new, 1);
            reveal_with_fuel(p_paren, 1);
            reveal_with_fuel(p_vector, 1);
            reveal_with_fuel(p_block, 1);
        }
        let start = self.span();
        match self.peek() {
            TokenKind::If => {
                return self.parse_if();
            },
            TokenKind::Let => {
                return self.parse_let();
            },
            TokenKind::While => {
                return self.parse_while();
            },
            TokenKind::For => {
                return self.parse_for();
            },
            TokenKind::Case => {
                return self.parse_case();
            },
            TokenKind::With => {
                return self.parse_with();
            },
            _ => {},
        }
        match self.peek() {
            TokenKind::Number(n) => {
                let lexeme = n.clone();
                self.advance();
                let r = Spanned::new(Expr::Number(lexeme), start);
                proof {
                    lemma_nview(r.node);
                }
                Ok(r)
            },
            TokenKind::StringLit(v) => {
                let value = v.clone();
                self.advance();
                let r = Spanned::new(Expr::Str(value), start);
                proof {
                    lemma_nview(r.node);
                }
                Ok(r)
            },
            TokenKind::True => {
                self.advance();
                let r = Spanned::new(Expr::Bool(true), start);
                proof {
                    lemma_nview(r.node);
                }
                Ok(r)
            },
            TokenKind::False => {
                self.advance();
                let r = Spanned::new(Expr::Bool(false), start);
                proof {
                    lemma_nview(r.node);
                }
                Ok(r)
            },
            TokenKind::Null => {
                self.advance();
                let r = Spanned::new(Expr::Null, start);
                proof {
                    lemma_nview(r.node);
                }
                Ok(r)
            },
            TokenKind::Self_ => {
                self.advance();
                let r = Spanned::new(Expr::Self_, start);
                proof {
                    lemma_nview(r.node);
                }
                Ok(r)
            },
            TokenKind::Ident(_) => self.parse_name(),
            TokenKind::At => {
                self.advance();
                let (name, name_span) = match self.expect_ident("variable name after '@'") {
                    Ok(x) => x,
                    Err(e) => {
                        return Err(e);
                    },
                };
                let span = Span::new(start.start, name_span.end, start.line, start.col);
                let r = Spanned::new(Expr::MacroArgRef(name), span);
                proof {
                    lemma_nview(r.node);
                }
                Ok(r)
            },
            TokenKind::Dollar => {
                self.advance();
                let (name, name_span) = match self.expect_ident("variable name after '$'") {
                    Ok(x) => x,
                    Err(e) => {
                        return Err(e);
                    },
                };
                let span = Span::new(start.start, name_span.end, start.line, start.col);
                let r = Spanned::new(Expr::MacroArgName(name), span);
                proof {
                    lemma_nview(r.node);
                }
                Ok(r)
            },
            TokenKind::New => self.parse_new(),
            TokenKind::LParen => self.parse_paren(),
            TokenKind::LBracket => self.parse_vector(),
            TokenKind::LBrace => self.parse_block(),
            _ => Err(self.unexpected_expression()),
        }
    }

    /// A name: a variable, a call, `base(args)` or a `match` form.
    #[verifier::spinoff_prover]
    fn parse_name(&mut self) -> (r: Result<ExprS, ParseError>)
        requires
            old(self).wf(),
            old(self).cur_kind() is Ident,
        ensures
            old(self).expr_done(final(self), r),
            expr_result(r, final(self).at()) == p_name(old(self).toks(), old(self).at(), old(self).nc(), old(self).np()),
        decreases old(self).toks().len() - old(self).at(), 15nat,
    {
        proof {
            reveal_with_fuel(p_name, 1);
            reveal_with_fuel(p_args, 1);
            reveal_with_fuel(p_macro_match, 1);
        }
        let start = self.span();
        let (name, _) = match self.expect_ident("expression") {
            Ok(x) => x,
            Err(e) => {
                return Err(e);
            },
        };
        if str_is(&name, "base") && self.check(&TokenKind::LParen) {
            self.advance();
            let args = match self.parse_args() {
                Ok(x) => x,
                Err(e) => {
                    return Err(e);
                },
            };
            let end = match self.expect(&TokenKind::RParen, "')'") {
                Ok(x) => x,
                Err(e) => {
                    return Err(e);
                },
            };
            let span = Span::new(start.start, end.end, start.line, start.col);
            let r = Spanned::new(Expr::Base { args }, span);
            proof {
                lemma_nview(r.node);
            }
            return Ok(r);
        }
        if str_is(&name, "match") && self.check(&TokenKind::LParen) {
            return self.parse_macro_match(start);
        }
        if self.matches(&TokenKind::LParen) {
            let args = match self.parse_args() {
                Ok(x) => x,
                Err(e) => {
                    return Err(e);
                },
            };
            let end = match self.expect(&TokenKind::RParen, "')'") {
                Ok(x) => x,
                Err(e) => {
                    return Err(e);
                },
            };
            let span = Span::new(start.start, end.end, start.line, start.col);
            let r = Spanned::new(Expr::Call { callee: name, args }, span);
            proof {
                lemma_nview(r.node);
            }
            Ok(r)
        } else {
            let r = Spanned::new(Expr::Var(name), start);
            proof {
                lemma_nview(r.node);
            }
            Ok(r)
        }
    }

    /// At `(`: a lambda, or an expression in parentheses.
    #[verifier::spinoff_prover]
    fn parse_paren(&mut self) -> (r: Result<ExprS, ParseError>)
        requires
            old(self).wf(),
            old(self).cur_kind() is LParen,
        ensures
            old(self).expr_done(final(self), r),
            expr_result(r, final(self).at()) == p_paren(old(self).toks(), old(self).at(), old(self).nc(), old(self).np()),
        decreases old(self).toks().len() - old(self).at(), 15nat,
    {
        proof {
            reveal_with_fuel(p_paren, 1);
            reveal_with_fuel(p_lambda, 1);
            reveal_with_fuel(p_expr, 1);
        }
        let start = self.span();
        if self.is_lambda_start() {
            return self.parse_lambda();
        }
        self.advance();
        let expr = match self.parse_expr() {
            Ok(x) => x,
            Err(e) => {
                return Err(e);
            },
        };
        let end = match self.expect(&TokenKind::RParen, "')'") {
            Ok(x) => x,
            Err(e) => {
                return Err(e);
            },
        };
        let span = Span::new(start.start, end.end, start.line, start.col);
        Ok(Spanned::new(expr.node, span))
    }

    /// `[]`, `[e1, e2, ...]` or `[body | x in iter]`; `|` is not read as
    /// logical or in the first element.
    #[verifier::spinoff_prover]
    fn parse_vector(&mut self) -> (r: Result<ExprS, ParseError>)
        requires
            old(self).wf(),
            old(self).cur_kind() is LBracket,
        ensures
            old(self).expr_done(final(self), r),
            expr_result(r, final(self).at()) == p_vector(old(self).toks(), old(self).at(), old(self).nc(), old(self).np()),
        decreases old(self).toks().len() - old(self).at(), 15nat,
    {
        proof {
            reveal_with_fuel(p_vector, 1);
            reveal_with_fuel(p_expr, 1);
            reveal_with_fuel(p_elems, 1);
        }
        let ghost t = self.toks();
        let ghost p = self.at();
        let ghost nc = self.nc();
        let ghost np = self.np();
        let start = self.span();
        self.advance();
        if self.check(&TokenKind::RBracket) {
            let end = self.advance();
            let span = Span::new(start.start, end.end, start.line, start.col);
            let elements: Vec<ExprS> = Vec::new();
            proof {
                assert(eviews(elements@) =~= Seq::<SExprV>::empty());
            }
            let r = Spanned::new(Expr::VecLit { elements }, span);
            proof {
                lemma_nview(r.node);
            }
            return Ok(r);
        }
        let prev_pipe = self.forbid_pipe_or;
        self.forbid_pipe_or = true;
        let first = match self.parse_expr() {
            Ok(x) => x,
            Err(e) => {
                return Err(e);
            },
        };
        self.forbid_pipe_or = prev_pipe;
        if self.matches(&TokenKind::Pipe) {
            let (var, _) = match self.expect_ident("variable name in comprehension") {
                Ok(x) => x,
                Err(e) => {
                    return Err(e);
                },
            };
            match self.expect(&TokenKind::In, "'in' in vector comprehension") {
                Ok(_) => {},
                Err(e) => {
                    return Err(e);
                },
            }
            let iter = match self.parse_expr() {
                Ok(x) => x,
                Err(e) => {
                    return Err(e);
                },
            };
            let end = match self.expect(&TokenKind::RBracket, "']'") {
                Ok(x) => x,
                Err(e) => {
                    return Err(e);
                },
            };
            let span = Span::new(start.start, end.end, start.line, start.col);
            let r = Spanned::new(Expr::VecComp { body: Box::new(first), var, iter: Box::new(iter) }, span);
            proof {
                lemma_nview(r.node);
            }
            return Ok(r);
        }
        let ghost q = self.at();
        let ghost first_v = eview(first);
        let mut elements: Vec<ExprS> = Vec::new();
        elements.push(first);
        proof {
            assert(eviews(elements@) =~= seq![first_v]);
        }
        loop
            invariant_except_break
                p_elems(t, q, seq![first_v], nc, np) == p_elems(t, self.at(), eviews(elements@), nc, np),
            invariant
                p_elems(t, q, seq![first_v], nc, np) is Err ==> p_vector(t, p, nc, np) == Err::<(SExprV, int), PErrV>(
                    p_elems(t, q, seq![first_v], nc, np)->Err_0,
                ),
                old(self).steps_to(self),
                old(self).same_flags(self),
                old(self).at() < self.at(),
                t == old(self).toks(),
                p == old(self).at(),
                nc == self.nc(),
                np == self.np(),
                nc == old(self).nc(),
                np == old(self).np(),
            ensures
                p_elems(t, q, seq![first_v], nc, np) == Ok::<(Seq<SExprV>, int), PErrV>((eviews(elements@), self.at())),
            decreases self.tokens@.len() - self.pos,
        {
            proof {
                reveal_with_fuel(p_elems, 1);
                reveal_with_fuel(p_vector, 1);
                reveal_with_fuel(p_expr, 1);
            }
            if !self.matches(&TokenKind::Comma) {
                break;
            }
            let e = match self.parse_expr() {
                Ok(x) => x,
                Err(e) => {
                    return Err(e);
                },
            };
            let ghost before = elements@;
            elements.push(e);
            proof {
                assert(eviews(elements@) =~= eviews(before).push(eview(e)));
            }
        }
        let end = match self.expect(&TokenKind::RBracket, "']'") {
            Ok(x) => x,
            Err(e) => {
                return Err(e);
            },
        };
        let span = Span::new(start.start, end.end, start.line, start.col);
        let r = Spanned::new(Expr::VecLit { elements }, span);
        proof {
            lemma_nview(r.node);
        }
        Ok(r)
    }

    /// Kind of the token at index `i`, if it matches the variant of `kind`.
    fn kind_at(&self, i: usize, kind: &TokenKind) -> (r: bool)
        requires
            self.wf(),
        ensures
            r == (i < self.tokens@.len() && self.tokens@[i as int].kind.spec_tag() == kind.spec_tag()),
            r ==> i < self.tokens.len(),
    {
        i < self.tokens.len() && self.tokens[i].kind.tag() == kind.tag()
    }

    /// True when the cursor starts a lambda: `(x [: T], ...) =>` or `() =>`.
    fn is_lambda_start(&self) -> (r: bool)
        requires
            self.wf(),
        ensures
            r == lambda_start(self.toks(), self.at()),
    {
        let ghost t = self.toks();
        let mut i = self.pos;
        if !self.kind_at(i, &TokenKind::LParen) {
            return false;
        }
        i = i + 1;
        if self.kind_at(i, &TokenKind::RParen) {
            return self.kind_at(i + 1, &TokenKind::DArrow);
        }
        loop
            invariant_except_break
                lambda_start(t, self.at()) == lambda_params_ahead(t, i as int),
            invariant
                self.wf(),
                t == self.toks(),
                self.pos < i <= self.tokens@.len(),
            ensures
                self.pos < i,
                lambda_start(t, self.at()) == (kind_at(t, i as int) is DArrow),
            decreases self.tokens@.len() - i,
        {
            let ghost i0 = i as int;
            if !self.kind_at(i, &TokenKind::Ident(String::new())) {
                return false;
            }
            i = i + 1;
            if self.kind_at(i, &TokenKind::Colon) {
                i = i + 1;
                let ghost i_mid = i;
                let mut depth: usize = 0;
                while i < self.tokens.len()
                    invariant
                        self.wf(),
                        t == self.toks(),
                        i_mid <= i <= self.tokens@.len(),
                        skip_ann(t, i_mid as int, 0) == skip_ann(t, i as int, depth as int),
                    ensures
                        i_mid <= i <= self.tokens@.len(),
                        skip_ann(t, i_mid as int, 0) == i,
                    decreases self.tokens@.len() - i,
                {
                    if self.kind_at(i, &TokenKind::LParen) {
                        if depth < usize::MAX {
                            depth = depth + 1;
                        }
                        i = i + 1;
                    } else if self.kind_at(i, &TokenKind::RParen) && depth > 0 {
                        depth = depth - 1;
                        i = i + 1;
                    } else if self.kind_at(i, &TokenKind::RParen) || self.kind_at(i, &TokenKind::Comma) {
                        break;
                    } else {
                        i = i + 1;
                    }
                }
            }
            assert(i as int == (if kind_at(t, i0 + 1) is Colon { skip_ann(t, i0 + 2, 0) } else { i0 + 1 }));
            if self.kind_at(i, &TokenKind::Comma) {
                i = i + 1;
            } else if self.kind_at(i, &TokenKind::RParen) {
                i = i + 1;
                break;
            } else {
                return false;
            }
        }
        self.kind_at(i, &TokenKind::DArrow)
    }

    #[verifier::spinoff_prover]
    fn parse_lambda(&mut self) -> (r: Result<ExprS, ParseError>)
        requires
            old(self).wf(),
        ensures
            old(self).expr_done(final(self), r),
            expr_result(r, final(self).at()) == p_lambda(old(self).toks(), old(self).at(), old(self).nc(), old(self).np()),
        decreases old(self).toks().len() - old(self).at(), 10nat,
    {
        proof {
            reveal_with_fuel(p_lambda, 1);
            reveal_with_fuel(p_expr, 1);
        }
        let start = self.span();
        match self.expect(&TokenKind::LParen, "'('") {
            Ok(_) => {},
            Err(e) => {
                return Err(e);
            },
        }
        let params = if self.check(&TokenKind::RParen) {
            let v: Vec<Param> = Vec::new();
            proof {
                assert(pviews(v@) =~= Seq::<ParamV>::empty());
            }
            v
        } else {
            match self.parse_params() {
                Ok(x) => x,
                Err(e) => {
                    return Err(e);
                },
            }
        };
        match self.expect(&TokenKind::RParen, "')'") {
            Ok(_) => {},
            Err(e) => {
                return Err(e);
            },
        }
        match self.expect(&TokenKind::DArrow, "'=>' in lambda") {
            Ok(_) => {},
            Err(e) => {
                return Err(e);
            },
        }
        let body = match self.parse_expr() {
            Ok(x) => x,
            Err(e) => {
                return Err(e);
            },
        };
        let span = Span::new(start.start, body.span.end, start.line, start.col);
        let r = Spanned::new(Expr::Lambda { params, body: Box::new(body) }, span);
        proof {
            lemma_nview(r.node);
        }
        Ok(r)
    }

    /// Comma-separated arguments, up to (not including) `)`.
    fn parse_args(&mut self) -> (r: Result<Vec<ExprS>, ParseError>)
        requires
            old(self).wf(),
        ensures
            old(self).steps_to(final(self)),
            r is Ok ==> old(self).same_flags(final(self)),
            list_result(r, final(self).at()) == p_args(old(self).toks(), old(self).at(), old(self).nc(), old(self).np()),
        decreases old(self).toks().len() - old(self).at(), 30nat,
    {
        proof {
            reveal_with_fuel(p_args, 1);
            reveal_with_fuel(p_expr, 1);
            reveal_with_fuel(p_args_from, 1);
        }
        let ghost t = self.toks();
        let ghost p = self.at();
        let ghost nc = self.nc();
        let ghost np = self.np();
        let mut args: Vec<ExprS> = Vec::new();
        proof {
            assert(eviews(args@) =~= Seq::<SExprV>::empty());
        }
        if self.check(&TokenKind::RParen) {
            return Ok(args);
        }
        loop
            invariant_except_break
                p_args(t, p, nc, np) == p_args_from(t, self.at(), eviews(args@), nc, np),
            invariant
                old(self).steps_to(self),
                old(self).same_flags(self),
                t == old(self).toks(),
                p == old(self).at(),
                nc == self.nc(),
                np == self.np(),
                nc == old(self).nc(),
                np == old(self).np(),
            ensures
                p_args(t, p, nc, np) == Ok::<(Seq<SExprV>, int), PErrV>((eviews(args@), self.at())),
            decreases self.tokens@.len() - self.pos,
        {
            proof {
                reveal_with_fuel(p_args_from, 1);
                reveal_with_fuel(p_args, 1);
                reveal_with_fuel(p_expr, 1);
            }
            let e = match self.parse_expr() {
                Ok(x) => x,
                Err(e) => {
                    return Err(e);
                },
            };
            let ghost before = args@;
            args.push(e);
            proof {
                assert(eviews(args@) =~= eviews(before).push(eview(e)));
            }
            if !self.matches(&TokenKind::Comma) {
                break;
            }
        }
        Ok(args)
    }
}


// ── Special forms ────────────────────────────────────────────────────────────

impl Parser {
    #[verifier::spinoff_prover]
    fn parse_let(&mut self) -> (r: Result<ExprS, ParseError>)
        requires
            old(self).wf(),
        ensures
            old(self).expr_done(final(self), r),
            expr_result(r, final(self).at()) == p_let(old(self).toks(), old(self).at(), old(self).nc(), old(self).np()),
            r is Ok ==> r->Ok_0.node is Let,
        decreases old(self).toks().len() - old(self).at(), 10nat,
    {
        proof {
            reveal_with_fuel(p_let, 1);
            reveal_with_fuel(p_expr, 1);
            reveal_with_fuel(p_bindings, 1);
        }
        let ghost t = self.toks();
        let ghost p = self.at();
        let ghost nc = self.nc();
        let ghost np = self.np();
        let start = self.span();
        match self.expect(&TokenKind::Let, "'let'") {
            Ok(_) => {},
            Err(e) => {
                return Err(e);
            },
        }
        let mut bindings: Vec<Binding> = Vec::new();
        proof {
            assert(bviews(bindings@) =~= Seq::<BindingV>::empty());
        }
        loop
            invariant_except_break
                p_bindings(t, p + 1, Seq::empty(), nc, np) == p_bindings(t, self.at(), bviews(bindings@), nc, np),
            invariant
                p_bindings(t, p + 1, Seq::empty(), nc, np) is Err ==> p_let(t, p, nc, np) == Err::<(SExprV, int), PErrV>(
                    p_bindings(t, p + 1, Seq::empty(), nc, np)->Err_0,
                ),
                old(self).steps_to(self),
                old(self).same_flags(self),
                old(self).at() < self.at(),
                start == old(self).cur_span(),
                t == old(self).toks(),
                p == old(self).at(),
                nc == self.nc(),
                np == self.np(),
                nc == old(self).nc(),
                np == old(self).np(),
            ensures
                p_bindings(t, p + 1, Seq::empty(), nc, np) == Ok::<(Seq<BindingV>, int), PErrV>((bviews(bindings@), self.at())),
            decreases self.tokens@.len() - self.pos,
        {
            proof {
                reveal_with_fuel(p_bindings, 1);
                reveal_with_fuel(p_let, 1);
                reveal_with_fuel(p_expr, 1);
            }
            let b_start = self.span();
            let (name, _) = match self.expect_ident("variable name") {
                Ok(x) => x,
                Err(e) => {
                    return Err(e);
                },
            };
            let ghost q1 = self.at();
            let type_ann = if self.matches(&TokenKind::Colon) {
                match self.parse_type_expr() {
                    Ok(x) => Some(x),
                    Err(e) => {
                        proof {
                            assert(p_ann(t, q1) == Err::<(Option<TypeExprV>, int), PErrV>(e@));
                        }
                        return Err(e);
                    },
                }
            } else {
                None
            };
            proof {
                assert(p_ann(t, q1) == Ok::<(Option<TypeExprV>, int), PErrV>((otview(type_ann), self.at())));
            }
            match self.expect(&TokenKind::Eq, "'='") {
                Ok(_) => {},
                Err(e) => {
                    return Err(e);
                },
            }
            let init = match self.parse_expr() {
                Ok(x) => x,
                Err(e) => {
                    return Err(e);
                },
            };
            let b_end = init.span.end;
            let ghost before = bindings@;
            let b = Binding { name, type_ann, init, span: Span::new(b_start.start, b_end, b_start.line, b_start.col) };
            bindings.push(b);
            proof {
                assert(bviews(bindings@) =~= bviews(before).push(
                    BindingV { name: b.name, type_ann: otview(b.type_ann), init: eview(b.init), span: b.span },
                ));
            }
            if !self.matches(&TokenKind::Comma) {
                break;
            }
        }
        match self.expect(&TokenKind::In, "'in'") {
            Ok(_) => {},
            Err(e) => {
                return Err(e);
            },
        }
        let body = match self.parse_expr() {
            Ok(x) => x,
            Err(e) => {
                return Err(e);
            },
        };
        let span = Span::new(start.start, body.span.end, start.line, start.col);
        let r = Spanned::new(Expr::Let { bindings, body: Box::new(body) }, span);
        proof {
            lemma_nview(r.node);
        }
        Ok(r)
    }

    #[verifier::spinoff_prover]
    fn parse_if(&mut self) -> (r: Result<ExprS, ParseError>)
        requires
            old(self).wf(),
        ensures
            old(self).expr_done(final(self), r),
            expr_result(r, final(self).at()) == p_if(old(self).toks(), old(self).at(), old(self).nc(), old(self).np()),
            r is Ok ==> r->Ok_0.node is If,
        decreases old(self).toks().len() - old(self).at(), 10nat,
    {
        proof {
            reveal_with_fuel(p_if, 1);
            reveal_with_fuel(p_expr, 1);
            reveal_with_fuel(p_elifs, 1);
        }
        let ghost t = self.toks();
        let ghost p = self.at();
        let ghost nc = self.nc();
        let ghost np = self.np();
        let start = self.span();
        match self.expect(&TokenKind::If, "'if'") {
            Ok(_) => {},
            Err(e) => {
                return Err(e);
            },
        }
        match self.expect(&TokenKind::LParen, "'('") {
            Ok(_) => {},
            Err(e) => {
                return Err(e);
            },
        }
        let cond = match self.parse_expr() {
            Ok(x) => x,
            Err(e) => {
                return Err(e);
            },
        };
        match self.expect(&TokenKind::RParen, "')'") {
            Ok(_) => {},
            Err(e) => {
                return Err(e);
            },
        }
        let then = match self.parse_expr() {
            Ok(x) => x,
            Err(e) => {
                return Err(e);
            },
        };
        let ghost q2 = self.at();
        let mut elif_branches: Vec<(ExprS, ExprS)> = Vec::new();
        let mut last_end = then.span.end;
        proof {
            assert(pairviews(elif_branches@) =~= Seq::<(SExprV, SExprV)>::empty());
        }
        loop
            invariant_except_break
                p_elifs(t, q2, Seq::empty(), nc, np) == p_elifs(t, self.at(), pairviews(elif_branches@), nc, np),
            invariant
                p_elifs(t, q2, Seq::empty(), nc, np) is Err ==> p_if(t, p, nc, np) == Err::<(SExprV, int), PErrV>(
                    p_elifs(t, q2, Seq::empty(), nc, np)->Err_0,
                ),
                old(self).steps_to(self),
                old(self).same_flags(self),
                old(self).at() < self.at(),
                q2 <= self.at(),
                t == old(self).toks(),
                p == old(self).at(),
                nc == self.nc(),
                np == self.np(),
                nc == old(self).nc(),
                np == old(self).np(),
                last_end == (if elif_branches@.len() > 0 {
                    elif_branches@.last().1.span.end
                } else {
                    then.span.end
                }),
            ensures
                p_elifs(t, q2, Seq::empty(), nc, np) == Ok::<(Seq<(SExprV, SExprV)>, int), PErrV>((pairviews(elif_branches@), self.at())),
            decreases self.tokens@.len() - self.pos,
        {
            proof {
                reveal_with_fuel(p_elifs, 1);
                reveal_with_fuel(p_if, 1);
                reveal_with_fuel(p_expr, 1);
            }
            if !self.matches(&TokenKind::Elif) {
                break;
            }
            match self.expect(&TokenKind::LParen, "'('") {
                Ok(_) => {},
                Err(e) => {
                    return Err(e);
                },
            }
            let elif_cond = match self.parse_expr() {
                Ok(x) => x,
                Err(e) => {
                    return Err(e);
                },
            };
            match self.expect(&TokenKind::RParen, "')'") {
                Ok(_) => {},
                Err(e) => {
                    return Err(e);
                },
            }
            let elif_body = match self.parse_expr() {
                Ok(x) => x,
                Err(e) => {
                    return Err(e);
                },
            };
            last_end = elif_body.span.end;
            let ghost before = elif_branches@;
            let ghost pair_v = (eview(elif_cond), eview(elif_body));
            elif_branches.push((elif_cond, elif_body));
            proof {
                assert(pairviews(elif_branches@) =~= pairviews(before).push(pair_v));
            }
        }
        let else_branch = if self.matches(&TokenKind::Else) {
            let e = match self.parse_expr() {
                Ok(x) => x,
                Err(e) => {
                    return Err(e);
                },
            };
            last_end = e.span.end;
            Some(Box::new(e))
        } else {
            None
        };
        let span = Span::new(start.start, last_end, start.line, start.col);
        let r = Spanned::new(Expr::If { cond: Box::new(cond), then: Box::new(then), elif_branches, else_branch }, span);
        proof {
            lemma_nview(r.node);
        }
        Ok(r)
    }

    fn parse_while(&mut self) -> (r: Result<ExprS, ParseError>)
        requires
            old(self).wf(),
        ensures
            old(self).expr_done(final(self), r),
            expr_result(r, final(self).at()) == p_while(old(self).toks(), old(self).at(), old(self).nc(), old(self).np()),
            r is Ok ==> r->Ok_0.node is While,
        decreases old(self).toks().len() - old(self).at(), 10nat,
    {
        proof {
            reveal_with_fuel(p_while, 1);
            reveal_with_fuel(p_expr, 1);
        }
        let start = self.span();
        match self.expect(&TokenKind::While, "'while'") {
            Ok(_) => {},
            Err(e) => {
                return Err(e);
            },
        }
        match self.expect(&TokenKind::LParen, "'('") {
            Ok(_) => {},
            Err(e) => {
                return Err(e);
            },
        }
        let cond = match self.parse_expr() {
            Ok(x) => x,
            Err(e) => {
                return Err(e);
            },
        };
        match self.expect(&TokenKind::RParen, "')'") {
            Ok(_) => {},
            Err(e) => {
                return Err(e);
            },
        }
        let body = match self.parse_expr() {
            Ok(x) => x,
            Err(e) => {
                return Err(e);
            },
        };
        let span = Span::new(start.start, body.span.end, start.line, start.col);
        let r = Spanned::new(Expr::While { cond: Box::new(cond), body: Box::new(body) }, span);
        proof {
            lemma_nview(r.node);
        }
        Ok(r)
    }

    fn parse_for(&mut self) -> (r: Result<ExprS, ParseError>)
        requires
            old(self).wf(),
        ensures
            old(self).expr_done(final(self), r),
            expr_result(r, final(self).at()) == p_for(old(self).toks(), old(self).at(), old(self).nc(), old(self).np()),
            r is Ok ==> r->Ok_0.node is For,
        decreases old(self).toks().len() - old(self).at(), 10nat,
    {
        proof {
            reveal_with_fuel(p_for, 1);
            reveal_with_fuel(p_expr, 1);
        }
        let start = self.span();
        match self.expect(&TokenKind::For, "'for'") {
            Ok(_) => {},
            Err(e) => {
                return Err(e);
            },
        }
        match self.expect(&TokenKind::LParen, "'('") {
            Ok(_) => {},
            Err(e) => {
                return Err(e);
            },
        }
        let (var, _) = match self.expect_ident("loop variable") {
            Ok(x) => x,
            Err(e) => {
                return Err(e);
            },
        };
        match self.expect(&TokenKind::In, "'in'") {
            Ok(_) => {},
            Err(e) => {
                return Err(e);
            },
        }
        let iter = match self.parse_expr() {
            Ok(x) => x,
            Err(e) => {
                return Err(e);
            },
        };
        match self.expect(&TokenKind::RParen, "')'") {
            Ok(_) => {},
            Err(e) => {
                return Err(e);
            },
        }
        let body = match self.parse_expr() {
            Ok(x) => x,
            Err(e) => {
                return Err(e);
            },
        };
        let span = Span::new(start.start, body.span.end, start.line, start.col);
        let r = Spanned::new(Expr::For { var, iter: Box::new(iter), body: Box::new(body) }, span);
        proof {
            lemma_nview(r.node);
        }
        Ok(r)
    }

    #[verifier::spinoff_prover]
    fn parse_case(&mut self) -> (r: Result<ExprS, ParseError>)
        requires
            old(self).wf(),
        ensures
            old(self).expr_done(final(self), r),
            expr_result(r, final(self).at()) == p_case(old(self).toks(), old(self).at(), old(self).nc(), old(self).np()),
            r is Ok ==> r->Ok_0.node is Case,
        decreases old(self).toks().len() - old(self).at(), 10nat,
    {
        proof {
            reveal_with_fuel(p_case, 1);
            reveal_with_fuel(p_expr, 1);
            reveal_with_fuel(p_arms, 1);
        }
        let ghost t = self.toks();
        let ghost p = self.at();
        let ghost nc = self.nc();
        let ghost np = self.np();
        let start = self.span();
        match self.expect(&TokenKind::Case, "'case'") {
            Ok(_) => {},
            Err(e) => {
                return Err(e);
            },
        }
        let expr = match self.parse_expr() {
            Ok(x) => x,
            Err(e) => {
                return Err(e);
            },
        };
        match self.expect(&TokenKind::Of, "'of'") {
            Ok(_) => {},
            Err(e) => {
                return Err(e);
            },
        }
        match self.expect(&TokenKind::LBrace, "'{'") {
            Ok(_) => {},
            Err(e) => {
                return Err(e);
            },
        }
        let ghost q = self.at();
        let mut arms: Vec<CaseArm> = Vec::new();
        proof {
            assert(armviews(arms@) =~= Seq::<ArmV>::empty());
        }
        loop
            invariant_except_break
                p_arms(t, q, Seq::empty(), nc, np) == p_arms(t, self.at(), armviews(arms@), nc, np),
            invariant
                p_arms(t, q, Seq::empty(), nc, np) is Err ==> p_case(t, p, nc, np) == Err::<(SExprV, int), PErrV>(
                    p_arms(t, q, Seq::empty(), nc, np)->Err_0,
                ),
                old(self).steps_to(self),
                old(self).same_flags(self),
                old(self).at() < self.at(),
                t == old(self).toks(),
                p == old(self).at(),
                nc == self.nc(),
                np == self.np(),
                nc == old(self).nc(),
                np == old(self).np(),
            ensures
                p_arms(t, q, Seq::empty(), nc, np) == Ok::<(Seq<ArmV>, int), PErrV>((armviews(arms@), self.at())),
            decreases self.tokens@.len() - self.pos,
        {
            proof {
                reveal_with_fuel(p_arms, 1);
                reveal_with_fuel(p_case, 1);
                reveal_with_fuel(p_expr, 1);
            }
            if self.check(&TokenKind::RBrace) || self.is_at_end() {
                break;
            }
            let arm_start = self.span();
            let (binding, _) = match self.expect_ident("binding name") {
                Ok(x) => x,
                Err(e) => {
                    return Err(e);
                },
            };
            match self.expect(&TokenKind::Colon, "':'") {
                Ok(_) => {},
                Err(e) => {
                    return Err(e);
                },
            }
            let ghost q1 = self.at();
            let type_ann = match self.parse_type_expr() {
                Ok(x) => x,
                Err(e) => {
                    return Err(e);
                },
            };
            match self.expect(&TokenKind::Arrow, "'->'") {
                Ok(_) => {},
                Err(e) => {
                    return Err(e);
                },
            }
            let body = match self.parse_expr() {
                Ok(x) => x,
                Err(e) => {
                    return Err(e);
                },
            };
            match self.expect(&TokenKind::Semicolon, "';'") {
                Ok(_) => {},
                Err(e) => {
                    return Err(e);
                },
            }
            let arm_span = Span::new(arm_start.start, body.span.end, arm_start.line, arm_start.col);
            let ghost before = arms@;
            let arm = CaseArm { binding, type_ann, body, span: arm_span };
            arms.push(arm);
            proof {
                assert(armviews(arms@) =~= armviews(before).push(
                    ArmV { binding: arm.binding, type_ann: tview(arm.type_ann), body: eview(arm.body), span: arm.span },
                ));
            }
        }
        let end = match self.expect(&TokenKind::RBrace, "'}'") {
            Ok(x) => x,
            Err(e) => {
                return Err(e);
            },
        };
        let span = Span::new(start.start, end.end, start.line, start.col);
        let r = Spanned::new(Expr::Case { expr: Box::new(expr), arms }, span);
        proof {
            lemma_nview(r.node);
        }
        Ok(r)
    }

    #[verifier::spinoff_prover]
    fn parse_with(&mut self) -> (r: Result<ExprS, ParseError>)
        requires
            old(self).wf(),
        ensures
            old(self).expr_done(final(self), r),
            expr_result(r, final(self).at()) == p_with(old(self).toks(), old(self).at(), old(self).nc(), old(self).np()),
            r is Ok ==> r->Ok_0.node is With,
        decreases old(self).toks().len() - old(self).at(), 10nat,
    {
        proof {
            reveal_with_fuel(p_with, 1);
            reveal_with_fuel(p_expr, 1);
        }
        let start = self.span();
        match self.expect(&TokenKind::With, "'with'") {
            Ok(_) => {},
            Err(e) => {
                return Err(e);
            },
        }
        match self.expect(&TokenKind::LParen, "'('") {
            Ok(_) => {},
            Err(e) => {
                return Err(e);
            },
        }
        let prev = self.forbid_as_cast;
        self.forbid_as_cast = true;
        let expr = match self.parse_expr() {
            Ok(x) => x,
            Err(e) => {
                return Err(e);
            },
        };
        self.forbid_as_cast = prev;
        match self.expect(&TokenKind::As, "'as'") {
            Ok(_) => {},
            Err(e) => {
                return Err(e);
            },
        }
        let (binding, _) = match self.expect_ident("binding name") {
            Ok(x) => x,
            Err(e) => {
                return Err(e);
            },
        };
        match self.expect(&TokenKind::RParen, "')'") {
            Ok(_) => {},
            Err(e) => {
                return Err(e);
            },
        }
        let body = match self.parse_expr() {
            Ok(x) => x,
            Err(e) => {
                return Err(e);
            },
        };
        match self.expect(&TokenKind::Else, "'else'") {
            Ok(_) => {},
            Err(e) => {
                return Err(e);
            },
        }
        let fallback = match self.parse_expr() {
            Ok(x) => x,
            Err(e) => {
                return Err(e);
            },
        };
        let span = Span::new(start.start, fallback.span.end, start.line, start.col);
        let r = Spanned::new(Expr::With { expr: Box::new(expr), binding, body: Box::new(body), fallback: Box::new(fallback) }, span);
        proof {
            lemma_nview(r.node);
        }
        Ok(r)
    }

    #[verifier::spinoff_prover]
    fn parse_new(&mut self) -> (r: Result<ExprS, ParseError>)
        requires
            old(self).wf(),
        ensures
            old(self).expr_done(final(self), r),
            expr_result(r, final(self).at()) == p_new(old(self).toks(), old(self).at(), old(self).nc(), old(self).np()),
        decreases old(self).toks().len() - old(self).at(), 10nat,
    {
        proof {
            reveal_with_fuel(p_new, 1);
            reveal_with_fuel(p_expr, 1);
            reveal_with_fuel(p_block, 1);
            reveal_with_fuel(p_args, 1);
        }
        let start = self.span();
        match self.expect(&TokenKind::New, "'new'") {
            Ok(_) => {},
            Err(e) => {
                return Err(e);
            },
        }
        let (ty_name, _) = match self.expect_ident("type name") {
            Ok(x) => x,
            Err(e) => {
                return Err(e);
            },
        };
        if self.matches(&TokenKind::LBracket) {
            let size = match self.parse_expr() {
                Ok(x) => x,
                Err(e) => {
                    return Err(e);
                },
            };
            let end = match self.expect(&TokenKind::RBracket, "']'") {
                Ok(x) => x,
                Err(e) => {
                    return Err(e);
                },
            };
            let mut end_pos = end.end;
            let init = if self.check(&TokenKind::LBrace) {
                let block = match self.parse_block() {
                    Ok(x) => x,
                    Err(e) => {
                        return Err(e);
                    },
                };
                end_pos = block.span.end;
                Some(Box::new(block))
            } else {
                None
            };
            let span = Span::new(start.start, end_pos, start.line, start.col);
            let r = Spanned::new(Expr::NewArray { ty_name, size: Box::new(size), init }, span);
            proof {
                lemma_nview(r.node);
            }
            return Ok(r);
        }
        match self.expect(&TokenKind::LParen, "'('") {
            Ok(_) => {},
            Err(e) => {
                return Err(e);
            },
        }
        let args = match self.parse_args() {
            Ok(x) => x,
            Err(e) => {
                return Err(e);
            },
        };
        let end = match self.expect(&TokenKind::RParen, "')'") {
            Ok(x) => x,
            Err(e) => {
                return Err(e);
            },
        };
        let span = Span::new(start.start, end.end, start.line, start.col);
        let r = Spanned::new(Expr::New { ty_name, args }, span);
        proof {
            lemma_nview(r.node);
        }
        Ok(r)
    }

    /// `{ e1; e2; ... [en] }`
    #[verifier::spinoff_prover]
    fn parse_block(&mut self) -> (r: Result<ExprS, ParseError>)
        requires
            old(self).wf(),
        ensures
            old(self).expr_done(final(self), r),
            expr_result(r, final(self).at()) == p_block(old(self).toks(), old(self).at(), old(self).nc(), old(self).np()),
            r is Ok ==> r->Ok_0.node is Block,
        decreases old(self).toks().len() - old(self).at(), 10nat,
    {
        proof {
            reveal_with_fuel(p_block, 1);
            reveal_with_fuel(p_expr, 1);
            reveal_with_fuel(p_stmts, 1);
        }
        let ghost t = self.toks();
        let ghost p = self.at();
        let ghost nc = self.nc();
        let ghost np = self.np();
        let start = self.span();
        match self.expect(&TokenKind::LBrace, "'{'") {
            Ok(_) => {},
            Err(e) => {
                return Err(e);
            },
        }
        let mut stmts: Vec<ExprS> = Vec::new();
        proof {
            assert(eviews(stmts@) =~= Seq::<SExprV>::empty());
        }
        loop
            invariant_except_break
                p_stmts(t, p + 1, Seq::empty(), nc, np) == p_stmts(t, self.at(), eviews(stmts@), nc, np),
            invariant
                p_stmts(t, p + 1, Seq::empty(), nc, np) is Err ==> p_block(t, p, nc, np) == Err::<(SExprV, int), PErrV>(
                    p_stmts(t, p + 1, Seq::empty(), nc, np)->Err_0,
                ),
                old(self).steps_to(self),
                old(self).same_flags(self),
                old(self).at() < self.at(),
                t == old(self).toks(),
                p == old(self).at(),
                nc == self.nc(),
                np == self.np(),
                nc == old(self).nc(),
                np == old(self).np(),
            ensures
                p_stmts(t, p + 1, Seq::empty(), nc, np) == Ok::<(Seq<SExprV>, int), PErrV>((eviews(stmts@), self.at())),
            decreases self.tokens@.len() - self.pos,
        {
            proof {
                reveal_with_fuel(p_stmts, 1);
                reveal_with_fuel(p_block, 1);
                reveal_with_fuel(p_expr, 1);
            }
            if self.check(&TokenKind::RBrace) || self.is_at_end() {
                break;
            }
            let expr = match self.parse_expr() {
                Ok(x) => x,
                Err(e) => {
                    return Err(e);
                },
            };
            let ghost before = stmts@;
            let ghost ev = eview(expr);
            let semi = self.matches(&TokenKind::Semicolon);
            stmts.push(expr);
            proof {
                assert(eviews(stmts@) =~= eviews(before).push(ev));
            }
            if !semi {
                break;
            }
        }
        let end = match self.expect(&TokenKind::RBrace, "'}'") {
            Ok(x) => x,
            Err(e) => {
                return Err(e);
            },
        };
        let span = Span::new(start.start, end.end, start.line, start.col);
        let r = Spanned::new(Expr::Block(stmts), span);
        proof {
            lemma_nview(r.node);
        }
        Ok(r)
    }

    /// `match(expr) { case (pat) => body; ... default => body; }`, after
    /// the word `match`, which began at `start`.
    #[verifier::spinoff_prover]
    fn parse_macro_match(&mut self, start: Span) -> (r: Result<ExprS, ParseError>)
        requires
            old(self).wf(),
        ensures
            old(self).steps_to(final(self)),
            r is Ok ==> old(self).at() < final(self).at() && old(self).same_flags(final(self))
                && starts_at(r->Ok_0.span, start),
            expr_result(r, final(self).at()) == p_macro_match(old(self).toks(), old(self).at(), start, old(self).nc(), old(self).np()),
        decreases old(self).toks().len() - old(self).at(), 10nat,
    {
        proof {
            reveal_with_fuel(p_macro_match, 1);
            reveal_with_fuel(p_expr, 1);
            reveal_with_fuel(p_mcases, 1);
        }
        let ghost t = self.toks();
        let ghost p = self.at();
        let ghost nc = self.nc();
        let ghost np = self.np();
        match self.expect(&TokenKind::LParen, "'('") {
            Ok(_) => {},
            Err(e) => {
                return Err(e);
            },
        }
        let subject = match self.parse_expr() {
            Ok(x) => x,
            Err(e) => {
                return Err(e);
            },
        };
        match self.expect(&TokenKind::RParen, "')'") {
            Ok(_) => {},
            Err(e) => {
                return Err(e);
            },
        }
        match self.expect(&TokenKind::LBrace, "'{'") {
            Ok(_) => {},
            Err(e) => {
                return Err(e);
            },
        }
        let ghost q = self.at();
        let mut cases: Vec<(ExprS, ExprS)> = Vec::new();
        let mut default_body: Option<ExprS> = None;
        proof {
            assert(pairviews(cases@) =~= Seq::<(SExprV, SExprV)>::empty());
        }
        loop
            invariant_except_break
                p_mcases(t, q, Seq::empty(), None, nc, np) == p_mcases(t, self.at(), pairviews(cases@), oview(default_body), nc, np),
            invariant
                p_mcases(t, q, Seq::empty(), None, nc, np) is Err ==> p_macro_match(t, p, start, nc, np) == Err::<(SExprV, int), PErrV>(
                    p_mcases(t, q, Seq::empty(), None, nc, np)->Err_0,
                ),
                old(self).steps_to(self),
                old(self).same_flags(self),
                old(self).at() < self.at(),
                t == old(self).toks(),
                p == old(self).at(),
                nc == self.nc(),
                np == self.np(),
                nc == old(self).nc(),
                np == old(self).np(),
            ensures
                p_mcases(t, q, Seq::empty(), None, nc, np) == Ok::<(Seq<(SExprV, SExprV)>, Option<SExprV>, int), PErrV>((pairviews(cases@), oview(default_body), self.at())),
            decreases self.tokens@.len() - self.pos,
        {
            proof {
                reveal_with_fuel(p_mcases, 1);
                reveal_with_fuel(p_macro_match, 1);
                reveal_with_fuel(p_expr, 1);
            }
            if self.check(&TokenKind::RBrace) || self.is_at_end() {
                break;
            }
            if self.check(&TokenKind::Case) {
                self.advance();
                match self.expect(&TokenKind::LParen, "'(' after case") {
                    Ok(_) => {},
                    Err(e) => {
                        return Err(e);
                    },
                }
                let pat = match self.parse_expr() {
                    Ok(x) => x,
                    Err(e) => {
                        return Err(e);
                    },
                };
                match self.expect(&TokenKind::RParen, "')' after pattern") {
                    Ok(_) => {},
                    Err(e) => {
                        return Err(e);
                    },
                }
                match self.expect(&TokenKind::DArrow, "'=>'") {
                    Ok(_) => {},
                    Err(e) => {
                        return Err(e);
                    },
                }
                let body = match self.parse_expr() {
                    Ok(x) => x,
                    Err(e) => {
                        return Err(e);
                    },
                };
                if self.check(&TokenKind::Semicolon) {
                    self.advance();
                }
                let ghost before = cases@;
                let ghost pair_v = (eview(pat), eview(body));
                cases.push((pat, body));
                proof {
                    assert(pairviews(cases@) =~= pairviews(before).push(pair_v));
                }
            } else if self.check(&TokenKind::Default) {
                self.advance();
                match self.expect(&TokenKind::DArrow, "'=>'") {
                    Ok(_) => {},
                    Err(e) => {
                        return Err(e);
                    },
                }
                let body = match self.parse_expr() {
                    Ok(x) => x,
                    Err(e) => {
                        return Err(e);
                    },
                };
                if self.check(&TokenKind::Semicolon) {
                    self.advance();
                }
                default_body = Some(body);
            } else {
                break;
            }
        }
        let end = match self.expect(&TokenKind::RBrace, "'}'") {
            Ok(x) => x,
            Err(e) => {
                return Err(e);
            },
        };
        let span = Span::new(start.start, end.end, start.line, start.col);
        let default_body = match default_body {
            Some(b) => b,
            None => {
                proof {
                    lemma_nview(Expr::Null);
                }
                Spanned::new(Expr::Null, span)
            },
        };
        let r = Spanned::new(Expr::MacroMatch { subject: Box::new(subject), cases, default_body: Box::new(default_body) }, span);
        proof {
            lemma_nview(r.node);
        }
        Ok(r)
    }
}

// ── Types and parameters ─────────────────────────────────────────────────────

impl Parser {
    /// `Name`, `T[]`, `T*`, or `(T1, ...) -> R`.
    fn parse_type_expr(&mut self) -> (r: Result<TypeExpr, ParseError>)
        requires
            old(self).wf(),
        ensures
            old(self).steps_to(final(self)),
            r is Ok ==> old(self).at() < final(self).at() && old(self).same_flags(final(self)),
            type_result(r, final(self).at()) == p_type(old(self).toks(), old(self).at()),
        decreases old(self).toks().len() - old(self).at(),
    {
        let ghost t = self.toks();
        let ghost p = self.at();
        if self.check(&TokenKind::LParen) {
            self.advance();
            let mut params: Vec<TypeExpr> = Vec::new();
            if !self.check(&TokenKind::RParen) {
                let ghost p1 = self.at();
                let first = match self.parse_type_expr() {
                    Ok(x) => x,
                    Err(e) => {
                        proof {
                            assert(p_types(t, p1, Seq::empty()) == Err::<(Seq<TypeExprV>, int), PErrV>(e@));
                        }
                        return Err(e);
                    },
                };
                params.push(first);
                proof {
                    assert(params@.subrange(0, 0) =~= Seq::<TypeExpr>::empty());
                    assert(tviews(Seq::<TypeExpr>::empty()) == Seq::<TypeExprV>::empty());
                    assert(tviews(params@.subrange(0, 0)) == Seq::<TypeExprV>::empty());
                    assert(params@[0] == first);
                    assert(tviews(params@) =~= Seq::<TypeExprV>::empty().push(tview(first)));
                    assert(p_types(t, p1, Seq::empty()) == p_types_more(t, self.at(), tviews(params@)));
                }
                loop
                    invariant
                        old(self).steps_to(self),
                        old(self).same_flags(self),
                        old(self).at() < self.at(),
                        t == old(self).toks(),
                        p == old(self).at(),
                        p1 == p + 1,
                        t[p].kind is LParen,
                        !(t[p1].kind is RParen),
                        p_types(t, p1, Seq::empty()) == p_types_more(t, self.at(), tviews(params@)),
                    ensures
                        old(self).steps_to(self),
                        old(self).same_flags(self),
                        old(self).at() < self.at(),
                        p_types(t, p1, Seq::empty()) == Ok::<(Seq<TypeExprV>, int), PErrV>((tviews(params@), self.at())),
                    decreases self.tokens@.len() - self.pos,
                {
                    let ghost q = self.at();
                    if !self.matches(&TokenKind::Comma) {
                        proof {
                            assert(p_types_more(t, q, tviews(params@)) == Ok::<(Seq<TypeExprV>, int), PErrV>((tviews(params@), q)));
                        }
                        break;
                    }
                    let ghost q1 = self.at();
                    let x = match self.parse_type_expr() {
                        Ok(x) => x,
                        Err(e) => {
                            proof {
                                assert(p_types(t, q1, tviews(params@)) == Err::<(Seq<TypeExprV>, int), PErrV>(e@));
                            }
                            return Err(e);
                        },
                    };
                    let ghost before = params@;
                    params.push(x);
                    proof {
                        assert(params@.subrange(0, params@.len() - 1) =~= before);
                        assert(tviews(params@) == tviews(before).push(tview(x)));
                    }
                }
            }
            let ghost q = self.at();
            proof {
                let lst = if t[p + 1].kind is RParen {
                    Ok((Seq::<TypeExprV>::empty(), p + 1))
                } else {
                    p_types(t, p + 1, Seq::empty())
                };
                if t[p + 1].kind is RParen {
                    assert(params@.len() == 0);
                    assert(tviews(params@) =~= Seq::<TypeExprV>::empty());
                }
                assert(lst == Ok::<(Seq<TypeExprV>, int), PErrV>((tviews(params@), q)));
            }
            match self.expect(&TokenKind::RParen, "')' in function type") {
                Ok(_) => {},
                Err(e) => {
                    return Err(e);
                },
            }
            match self.expect(&TokenKind::Arrow, "'->' in function type") {
                Ok(_) => {},
                Err(e) => {
                    return Err(e);
                },
            }
            let ret = match self.parse_type_expr() {
                Ok(x) => x,
                Err(e) => {
                    return Err(e);
                },
            };
            return Ok(TypeExpr::Function { params, ret: Box::new(ret) });
        }
        let (name, _) = match self.expect_ident("type name") {
            Ok(x) => x,
            Err(e) => {
                return Err(e);
            },
        };
        let mut ty = TypeExpr::Named(name);
        proof {
            assert(p_type(t, p) == p_type_suffix(t, self.at(), tview(ty)));
        }
        loop
            invariant
                old(self).steps_to(self),
                old(self).same_flags(self),
                old(self).at() < self.at(),
                t == old(self).toks(),
                p == old(self).at(),
                p_type(t, p) == p_type_suffix(t, self.at(), tview(ty)),
            ensures
                old(self).steps_to(self),
                old(self).same_flags(self),
                old(self).at() < self.at(),
                p_type(t, p) == Ok::<(TypeExprV, int), PErrV>((tview(ty), self.at())),
            decreases self.tokens@.len() - self.pos,
        {
            if self.matches(&TokenKind::LBracket) {
                match self.expect(&TokenKind::RBracket, "']' in array type") {
                    Ok(_) => {},
                    Err(e) => {
                        return Err(e);
                    },
                }
                ty = TypeExpr::Array(Box::new(ty));
            } else if self.matches(&TokenKind::Star) {
                ty = TypeExpr::Iterable(Box::new(ty));
            } else {
                proof {
                    assert(p_type_suffix(t, self.at(), tview(ty)) == Ok::<(TypeExprV, int), PErrV>((tview(ty), self.at())));
                }
                break;
            }
        }
        Ok(ty)
    }

    /// `name [: T], ...` up to (not including) `)`.
    fn parse_params(&mut self) -> (r: Result<Vec<Param>, ParseError>)
        requires
            old(self).wf(),
        ensures
            old(self).steps_to(final(self)),
            r is Ok ==> old(self).same_flags(final(self)),
            params_result(r, final(self).at()) == p_params(old(self).toks(), old(self).at()),
    {
        let ghost t = self.toks();
        let mut params: Vec<Param> = Vec::new();
        if self.check(&TokenKind::RParen) {
            proof {
                assert(pviews(params@) =~= Seq::<ParamV>::empty());
            }
            return Ok(params);
        }
        proof {
            assert(pviews(params@) =~= Seq::<ParamV>::empty());
        }
        loop
            invariant_except_break
                p_params(t, old(self).at()) == p_params_from(t, self.at(), pviews(params@)),
            invariant
                old(self).steps_to(self),
                old(self).same_flags(self),
                t == old(self).toks(),
            ensures
                old(self).steps_to(self),
                old(self).same_flags(self),
                p_params(t, old(self).at()) == Ok::<(Seq<ParamV>, int), PErrV>((pviews(params@), self.at())),
            decreases self.tokens@.len() - self.pos,
        {
            let ghost q = self.at();
            let start = self.span();
            let (name, _) = match self.expect_ident("parameter name") {
                Ok(x) => x,
                Err(e) => {
                    return Err(e);
                },
            };
            let ghost q1 = self.at();
            let type_ann = if self.matches(&TokenKind::Colon) {
                match self.parse_type_expr() {
                    Ok(x) => Some(x),
                    Err(e) => {
                        proof {
                            assert(p_ann(t, q1) == Err::<(Option<TypeExprV>, int), PErrV>(e@));
                        }
                        return Err(e);
                    },
                }
            } else {
                None
            };
            proof {
                assert(p_ann(t, q1) == Ok::<(Option<TypeExprV>, int), PErrV>((otview(type_ann), self.at())));
            }
            let here = self.span();
            let span = Span::new(start.start, here.start, start.line, start.col);
            let ghost before = params@;
            let prm = Param { name, type_ann, span };
            params.push(prm);
            proof {
                assert(pviews(params@) =~= pviews(before).push(pview(prm)));
            }
            if !self.matches(&TokenKind::Comma) {
                break;
            }
        }
        Ok(params)
    }

    /// Macro parameters, each with an optional `@`, `*` or `$` in front.
    fn parse_macro_params(&mut self) -> (r: Result<Vec<MacroParam>, ParseError>)
        requires
            old(self).wf(),
        ensures
            old(self).steps_to(final(self)),
            r is Ok ==> old(self).same_flags(final(self)),
            mparams_result(r, final(self).at()) == p_mparams(old(self).toks(), old(self).at()),
    {
        let ghost t = self.toks();
        let mut params: Vec<MacroParam> = Vec::new();
        proof {
            assert(mparam_views(params@) =~= Seq::<MParamV>::empty());
        }
        if self.check(&TokenKind::RParen) {
            return Ok(params);
        }
        loop
            invariant_except_break
                p_mparams(t, old(self).at()) == p_mparams_from(t, self.at(), mparam_views(params@)),
            invariant
                old(self).steps_to(self),
                old(self).same_flags(self),
                t == old(self).toks(),
            ensures
                old(self).steps_to(self),
                old(self).same_flags(self),
                p_mparams(t, old(self).at()) == Ok::<(Seq<MParamV>, int), PErrV>((mparam_views(params@), self.at())),
            decreases self.tokens@.len() - self.pos,
        {
            let start = self.span();
            let kind = if self.matches(&TokenKind::At) {
                MacroParamKind::ByRef
            } else if self.matches(&TokenKind::Star) {
                MacroParamKind::ByName
            } else if self.matches(&TokenKind::Dollar) {
                MacroParamKind::VarName
            } else {
                MacroParamKind::Value
            };
            let (pname, _) = match self.expect_ident("macro parameter name") {
                Ok(x) => x,
                Err(e) => {
                    return Err(e);
                },
            };
            let ghost q1 = self.at();
            let type_ann = if self.matches(&TokenKind::Colon) {
                match self.parse_type_expr() {
                    Ok(x) => Some(x),
                    Err(e) => {
                        proof {
                            assert(p_ann(t, q1) == Err::<(Option<TypeExprV>, int), PErrV>(e@));
                        }
                        return Err(e);
                    },
                }
            } else {
                None
            };
            proof {
                assert(p_ann(t, q1) == Ok::<(Option<TypeExprV>, int), PErrV>((otview(type_ann), self.at())));
            }
            let here = self.span();
            let span = Span::new(start.start, here.start, start.line, start.col);
            let ghost before = params@;
            let x = MacroParam { name: pname, kind, type_ann, span };
            params.push(x);
            proof {
                assert(mparam_views(params@) =~= mparam_views(before).push(mparam_view(x)));
            }
            if !self.matches(&TokenKind::Comma) {
                break;
            }
        }
        Ok(params)
    }
}


// ── Declarations ─────────────────────────────────────────────────────────────

impl Parser {
    /// What every declaration parser promises: tokens kept, flags kept and
    /// at least one token consumed on success.
    pub open spec fn decl_done(&self, next: &Parser, ok: bool) -> bool {
        &&& self.steps_to(next)
        &&& (ok ==> self.at() < next.at() && self.same_flags(next))
    }

    /// Parses a whole program: declarations and top-level expressions,
    /// until the end of input.
    pub fn parse_program(&mut self) -> (r: Result<Program, ParseError>)
        requires
            old(self).wf(),
        ensures
            old(self).steps_to(final(self)),
            r is Ok ==> final(self).cur_kind() is Eof,
            r is Ok && old(self).cur_kind() is Eof ==> r->Ok_0.entry is None,
            program_result(r, final(self).at()) == p_program(old(self).toks(), old(self).at(), old(self).nc(), old(self).np()),
    {
        let ghost t = self.toks();
        let ghost p = self.at();
        let ghost nc = self.nc();
        let ghost np = self.np();
        let mut functions: Vec<FunctionDecl> = Vec::new();
        let mut classes: Vec<ClassDecl> = Vec::new();
        let mut top_level_protocols: Vec<ProtocolDecl> = Vec::new();
        let mut top_exprs: Vec<ExprS> = Vec::new();
        let mut macros: Vec<MacroDecl> = Vec::new();
        proof {
            assert(fun_views(functions@) =~= Seq::<FunV>::empty());
            assert(class_views(classes@) =~= Seq::<ClassV>::empty());
            assert(proto_views(top_level_protocols@) =~= Seq::<ProtoV>::empty());
            assert(macro_views(macros@) =~= Seq::<MacroV>::empty());
            assert(eviews(top_exprs@) =~= Seq::<SExprV>::empty());
            assert(acc_of(functions@, classes@, top_level_protocols@, macros@, top_exprs@) == empty_acc());
        }
        loop
            invariant_except_break
                p_items(t, p, empty_acc(), nc, np) == p_items(
                    t,
                    self.at(),
                    acc_of(functions@, classes@, top_level_protocols@, macros@, top_exprs@),
                    nc,
                    np,
                ),
            invariant
                old(self).steps_to(self),
                old(self).same_flags(self),
                t == old(self).toks(),
                p == old(self).at(),
                nc == self.nc(),
                np == self.np(),
                nc == old(self).nc(),
                np == old(self).np(),
                old(self).cur_kind() is Eof ==> top_exprs@.len() == 0 && self.at() == old(self).at(),
            ensures
                old(self).steps_to(self),
                self.cur_kind() is Eof,
                old(self).cur_kind() is Eof ==> top_exprs@.len() == 0,
                p_items(t, p, empty_acc(), nc, np) == Ok::<(ProgAcc, int), PErrV>((
                    acc_of(functions@, classes@, top_level_protocols@, macros@, top_exprs@),
                    self.at(),
                )),
            decreases self.toks().len() - self.at(),
        {
            if self.is_at_end() {
                break;
            }
            let ghost before = acc_of(functions@, classes@, top_level_protocols@, macros@, top_exprs@);
            match self.peek() {
                TokenKind::Semicolon => {
                    self.advance();
                },
                TokenKind::Function => {
                    let f = match self.parse_function_decl() {
                        Ok(x) => x,
                        Err(e) => {
                            return Err(e);
                        },
                    };
                    let ghost fs = functions@;
                    functions.push(f);
                    proof {
                        assert(fun_views(functions@) =~= fun_views(fs).push(fun_view(f)));
                    }
                },
                TokenKind::Class | TokenKind::Type => {
                    let c = match self.parse_class_decl() {
                        Ok(x) => x,
                        Err(e) => {
                            return Err(e);
                        },
                    };
                    let ghost cs = classes@;
                    classes.push(c);
                    proof {
                        assert(class_views(classes@) =~= class_views(cs).push(class_view(c)));
                    }
                },
                TokenKind::Protocol => {
                    let x = match self.parse_protocol_decl() {
                        Ok(x) => x,
                        Err(e) => {
                            return Err(e);
                        },
                    };
                    let ghost ps = top_level_protocols@;
                    top_level_protocols.push(x);
                    proof {
                        assert(proto_views(top_level_protocols@) =~= proto_views(ps).push(proto_view(x)));
                    }
                },
                TokenKind::Def => {
                    let m = match self.skip_macro_decl() {
                        Ok(x) => x,
                        Err(e) => {
                            return Err(e);
                        },
                    };
                    let ghost ms = macros@;
                    macros.push(m);
                    proof {
                        assert(macro_views(macros@) =~= macro_views(ms).push(macro_view(m)));
                    }
                },
                _ => {
                    let expr = match self.parse_expr() {
                        Ok(x) => x,
                        Err(e) => {
                            return Err(e);
                        },
                    };
                    if self.check(&TokenKind::Semicolon) {
                        self.advance();
                    }
                    let ghost es = top_exprs@;
                    top_exprs.push(expr);
                    proof {
                        assert(eviews(top_exprs@) =~= eviews(es).push(eview(expr)));
                    }
                },
            }
        }
        let ghost tops = top_exprs@;
        let entry = if top_exprs.len() == 0 {
            None
        } else if top_exprs.len() == 1 {
            Some(top_exprs.remove(0))
        } else {
            let n = top_exprs.len();
            let start = top_exprs[0].span;
            let end = top_exprs[n - 1].span;
            let span = Span::new(start.start, end.end, start.line, start.col);
            let b = Spanned::new(Expr::Block(top_exprs), span);
            proof {
                lemma_nview(b.node);
            }
            Some(b)
        };
        proof {
            assert(oview(entry) == entry_of(eviews(tops)));
        }
        let prog = Program { functions, classes, protocols: top_level_protocols, macros, entry };
        Ok(prog)
    }

    /// `def name(params) { body }`
    fn skip_macro_decl(&mut self) -> (r: Result<MacroDecl, ParseError>)
        requires
            old(self).wf(),
        ensures
            old(self).decl_done(final(self), r is Ok),
            macro_result(r, final(self).at()) == p_macro(old(self).toks(), old(self).at(), old(self).nc(), old(self).np()),
    {
        let start = self.span();
        match self.expect(&TokenKind::Def, "'def'") {
            Ok(_) => {},
            Err(e) => {
                return Err(e);
            },
        }
        let (name, _) = match self.expect_ident("macro name") {
            Ok(x) => x,
            Err(e) => {
                return Err(e);
            },
        };
        match self.expect(&TokenKind::LParen, "'('") {
            Ok(_) => {},
            Err(e) => {
                return Err(e);
            },
        }
        let params = match self.parse_macro_params() {
            Ok(x) => x,
            Err(e) => {
                return Err(e);
            },
        };
        match self.expect(&TokenKind::RParen, "')'") {
            Ok(_) => {},
            Err(e) => {
                return Err(e);
            },
        }
        let body = match self.parse_block() {
            Ok(x) => x,
            Err(e) => {
                return Err(e);
            },
        };
        if self.check(&TokenKind::Semicolon) {
            self.advance();
        }
        Ok(MacroDecl { name, params, body, span: start })
    }

    fn parse_function_decl(&mut self) -> (r: Result<FunctionDecl, ParseError>)
        requires
            old(self).wf(),
        ensures
            old(self).decl_done(final(self), r is Ok),
            r is Ok ==> starts_at(r->Ok_0.span, old(self).cur_span()),
            fun_result(r, final(self).at()) == p_function(old(self).toks(), old(self).at(), old(self).nc(), old(self).np()),
    {
        let ghost t = self.toks();
        let start = self.span();
        match self.expect(&TokenKind::Function, "'function'") {
            Ok(_) => {},
            Err(e) => {
                return Err(e);
            },
        }
        let (name, _) = match self.expect_ident("function name") {
            Ok(x) => x,
            Err(e) => {
                return Err(e);
            },
        };
        match self.expect(&TokenKind::LParen, "'('") {
            Ok(_) => {},
            Err(e) => {
                return Err(e);
            },
        }
        let params = match self.parse_params() {
            Ok(x) => x,
            Err(e) => {
                return Err(e);
            },
        };
        match self.expect(&TokenKind::RParen, "')'") {
            Ok(_) => {},
            Err(e) => {
                return Err(e);
            },
        }
        let ghost q1 = self.at();
        let return_type = if self.matches(&TokenKind::Colon) {
            match self.parse_type_expr() {
                Ok(x) => Some(x),
                Err(e) => {
                    proof {
                        assert(p_ann(t, q1) == Err::<(Option<TypeExprV>, int), PErrV>(e@));
                    }
                    return Err(e);
                },
            }
        } else {
            None
        };
        proof {
            assert(p_ann(t, q1) == Ok::<(Option<TypeExprV>, int), PErrV>((otview(return_type), self.at())));
        }
        let body = match self.parse_body() {
            Ok(x) => x,
            Err(e) => {
                return Err(e);
            },
        };
        let span = Span::new(start.start, body.span.end, start.line, start.col);
        Ok(FunctionDecl { name, params, return_type, body, span })
    }

    /// Class members until `}` or the end.
    fn parse_members(&mut self) -> (r: Result<Vec<ClassMember>, ParseError>)
        requires
            old(self).wf(),
        ensures
            old(self).steps_to(final(self)),
            r is Ok ==> old(self).same_flags(final(self)),
            members_result(r, final(self).at()) == p_members(old(self).toks(), old(self).at(), Seq::empty(), old(self).nc(), old(self).np()),
    {
        let ghost t = self.toks();
        let ghost p = self.at();
        let ghost nc = self.nc();
        let ghost np = self.np();
        let mut members: Vec<ClassMember> = Vec::new();
        proof {
            assert(member_views(members@) =~= Seq::<MemberV>::empty());
        }
        loop
            invariant_except_break
                p_members(t, p, Seq::empty(), nc, np) == p_members(t, self.at(), member_views(members@), nc, np),
            invariant
                old(self).steps_to(self),
                old(self).same_flags(self),
                t == old(self).toks(),
                p == old(self).at(),
                nc == self.nc(),
                np == self.np(),
                nc == old(self).nc(),
                np == old(self).np(),
            ensures
                old(self).steps_to(self),
                old(self).same_flags(self),
                p_members(t, p, Seq::empty(), nc, np) == Ok::<(Seq<MemberV>, int), PErrV>((member_views(members@), self.at())),
            decreases self.toks().len() - self.at(),
        {
            if self.check(&TokenKind::RBrace) || self.is_at_end() {
                break;
            }
            let m = match self.parse_class_member() {
                Ok(x) => x,
                Err(e) => {
                    return Err(e);
                },
            };
            let ghost before = members@;
            members.push(m);
            proof {
                assert(member_views(members@) =~= member_views(before).push(member_view(m)));
            }
        }
        Ok(members)
    }

    /// The base of a class: `is B` or `inherits B`, with arguments that are
    /// read and dropped.
    fn parse_class_base(&mut self) -> (r: Result<Option<String>, ParseError>)
        requires
            old(self).wf(),
        ensures
            old(self).steps_to(final(self)),
            r is Ok ==> old(self).same_flags(final(self)),
            match r {
                Ok(b) => p_base(old(self).toks(), old(self).at(), old(self).nc(), old(self).np())
                    == Ok::<(Option<String>, int), PErrV>((b, final(self).at())),
                Err(e) => p_base(old(self).toks(), old(self).at(), old(self).nc(), old(self).np())
                    == Err::<(Option<String>, int), PErrV>(e@),
            },
    {
        if self.matches(&TokenKind::Is) || self.matches(&TokenKind::Inherits) {
            let (base_name, _) = match self.expect_ident("base class name") {
                Ok(x) => x,
                Err(e) => {
                    return Err(e);
                },
            };
            if self.matches(&TokenKind::LParen) {
                match self.parse_args() {
                    Ok(_) => {},
                    Err(e) => {
                        return Err(e);
                    },
                }
                match self.expect(&TokenKind::RParen, "')'") {
                    Ok(_) => {},
                    Err(e) => {
                        return Err(e);
                    },
                }
            }
            Ok(Some(base_name))
        } else {
            Ok(None)
        }
    }

    #[verifier::rlimit(40)]
    fn parse_class_decl(&mut self) -> (r: Result<ClassDecl, ParseError>)
        requires
            old(self).wf(),
        ensures
            old(self).decl_done(final(self), r is Ok),
            r is Ok ==> starts_at(r->Ok_0.span, old(self).cur_span()),
            class_result(r, final(self).at()) == p_class(old(self).toks(), old(self).at(), old(self).nc(), old(self).np()),
    {
        let start = self.span();
        if !self.matches(&TokenKind::Class) {
            match self.expect(&TokenKind::Type, "'class' or 'type'") {
                Ok(_) => {},
                Err(e) => {
                    return Err(e);
                },
            }
        }
        let (name, _) = match self.expect_ident("class name") {
            Ok(x) => x,
            Err(e) => {
                return Err(e);
            },
        };
        let ctor_params = if self.matches(&TokenKind::LParen) {
            let ps = match self.parse_params() {
                Ok(x) => x,
                Err(e) => {
                    return Err(e);
                },
            };
            match self.expect(&TokenKind::RParen, "')'") {
                Ok(_) => {},
                Err(e) => {
                    return Err(e);
                },
            }
            ps
        } else {
            let v: Vec<Param> = Vec::new();
            proof {
                assert(pviews(v@) =~= Seq::<ParamV>::empty());
            }
            v
        };
        let base = match self.parse_class_base() {
            Ok(x) => x,
            Err(e) => {
                return Err(e);
            },
        };
        match self.expect(&TokenKind::LBrace, "'{'") {
            Ok(_) => {},
            Err(e) => {
                return Err(e);
            },
        }
        let members = match self.parse_members() {
            Ok(x) => x,
            Err(e) => {
                return Err(e);
            },
        };
        let end = match self.expect(&TokenKind::RBrace, "'}'") {
            Ok(x) => x,
            Err(e) => {
                return Err(e);
            },
        };
        let span = Span::new(start.start, end.end, start.line, start.col);
        Ok(ClassDecl { name, ctor_params, base, members, span })
    }

    /// Protocol names separated by commas.
    fn parse_protocol_names(&mut self) -> (r: Result<Vec<String>, ParseError>)
        requires
            old(self).wf(),
        ensures
            old(self).steps_to(final(self)),
            r is Ok ==> old(self).at() < final(self).at() && old(self).same_flags(final(self)),
            names_result(r, final(self).at()) == p_names(old(self).toks(), old(self).at(), Seq::empty()),
    {
        let ghost t = self.toks();
        let ghost p = self.at();
        let mut names: Vec<String> = Vec::new();
        loop
            invariant_except_break
                p_names(t, p, Seq::empty()) == p_names(t, self.at(), names@),
            invariant
                old(self).steps_to(self),
                old(self).same_flags(self),
                t == old(self).toks(),
                p == old(self).at(),
                names@.len() > 0 ==> p < self.at(),
            ensures
                old(self).steps_to(self),
                old(self).same_flags(self),
                p < self.at(),
                p_names(t, p, Seq::empty()) == Ok::<(Seq<String>, int), PErrV>((names@, self.at())),
            decreases self.toks().len() - self.at(),
        {
            let (name, _) = match self.expect_ident("protocol name") {
                Ok(x) => x,
                Err(e) => {
                    return Err(e);
                },
            };
            names.push(name);
            if !self.matches(&TokenKind::Comma) {
                break;
            }
        }
        Ok(names)
    }

    /// Protocol method signatures until `}` or the end.
    fn parse_protocol_methods(&mut self) -> (r: Result<Vec<ProtocolMethod>, ParseError>)
        requires
            old(self).wf(),
        ensures
            old(self).steps_to(final(self)),
            r is Ok ==> old(self).same_flags(final(self)),
            pmethods_result(r, final(self).at()) == p_pmethods(old(self).toks(), old(self).at(), Seq::empty()),
    {
        let ghost t = self.toks();
        let ghost p = self.at();
        let mut methods: Vec<ProtocolMethod> = Vec::new();
        proof {
            assert(pmethod_views(methods@) =~= Seq::<PMethodV>::empty());
        }
        loop
            invariant_except_break
                p_pmethods(t, p, Seq::empty()) == p_pmethods(t, self.at(), pmethod_views(methods@)),
            invariant
                old(self).steps_to(self),
                old(self).same_flags(self),
                t == old(self).toks(),
                p == old(self).at(),
            ensures
                old(self).steps_to(self),
                old(self).same_flags(self),
                p_pmethods(t, p, Seq::empty()) == Ok::<(Seq<PMethodV>, int), PErrV>((pmethod_views(methods@), self.at())),
            decreases self.toks().len() - self.at(),
        {
            if self.check(&TokenKind::RBrace) || self.is_at_end() {
                break;
            }
            let (mname, _) = match self.expect_ident("method name") {
                Ok(x) => x,
                Err(e) => {
                    return Err(e);
                },
            };
            match self.expect(&TokenKind::LParen, "'('") {
                Ok(_) => {},
                Err(e) => {
                    return Err(e);
                },
            }
            let params = match self.parse_params() {
                Ok(x) => x,
                Err(e) => {
                    return Err(e);
                },
            };
            match self.expect(&TokenKind::RParen, "')'") {
                Ok(_) => {},
                Err(e) => {
                    return Err(e);
                },
            }
            let ghost q1 = self.at();
            let return_type = if self.matches(&TokenKind::Colon) {
                match self.parse_type_expr() {
                    Ok(x) => Some(x),
                    Err(e) => {
                        proof {
                            assert(p_ann(t, q1) == Err::<(Option<TypeExprV>, int), PErrV>(e@));
                        }
                        return Err(e);
                    },
                }
            } else {
                None
            };
            proof {
                assert(p_ann(t, q1) == Ok::<(Option<TypeExprV>, int), PErrV>((otview(return_type), self.at())));
            }
            match self.expect(&TokenKind::Semicolon, "';' after protocol method") {
                Ok(_) => {},
                Err(e) => {
                    return Err(e);
                },
            }
            let ghost before = methods@;
            let m = ProtocolMethod { name: mname, params, return_type };
            methods.push(m);
            proof {
                assert(pmethod_views(methods@) =~= pmethod_views(before).push(pmethod_view(m)));
            }
        }
        Ok(methods)
    }

    /// `protocol Name [extends P1, P2] { method(params): T; ... }`
    fn parse_protocol_decl(&mut self) -> (r: Result<ProtocolDecl, ParseError>)
        requires
            old(self).wf(),
        ensures
            old(self).decl_done(final(self), r is Ok),
            proto_result(r, final(self).at()) == p_protocol(old(self).toks(), old(self).at()),
    {
        let start = self.span();
        match self.expect(&TokenKind::Protocol, "'protocol'") {
            Ok(_) => {},
            Err(e) => {
                return Err(e);
            },
        }
        let (name, _) = match self.expect_ident("protocol name") {
            Ok(x) => x,
            Err(e) => {
                return Err(e);
            },
        };
        let is_extends = match self.peek() {
            TokenKind::Ident(w) => str_is(w, "extends"),
            _ => false,
        };
        let extends = if is_extends {
            self.advance();
            match self.parse_protocol_names() {
                Ok(x) => x,
                Err(e) => {
                    return Err(e);
                },
            }
        } else {
            Vec::new()
        };
        match self.expect(&TokenKind::LBrace, "'{'") {
            Ok(_) => {},
            Err(e) => {
                return Err(e);
            },
        }
        let methods = match self.parse_protocol_methods() {
            Ok(x) => x,
            Err(e) => {
                return Err(e);
            },
        };
        let end = match self.expect(&TokenKind::RBrace, "'}'") {
            Ok(x) => x,
            Err(e) => {
                return Err(e);
            },
        };
        let span = Span::new(start.start, end.end, start.line, start.col);
        Ok(ProtocolDecl { name, extends, methods, span })
    }

    fn parse_class_member(&mut self) -> (r: Result<ClassMember, ParseError>)
        requires
            old(self).wf(),
        ensures
            old(self).decl_done(final(self), r is Ok),
            member_result(r, final(self).at()) == p_member(old(self).toks(), old(self).at(), old(self).nc(), old(self).np()),
    {
        let start = self.span();
        if self.matches(&TokenKind::Function) {
            return self.parse_method_member(start);
        }
        let (name, name_span) = match self.expect_ident("attribute or method name") {
            Ok(x) => x,
            Err(e) => {
                return Err(e);
            },
        };
        if self.matches(&TokenKind::ColonEq) || self.matches(&TokenKind::Eq) {
            let init = match self.parse_expr() {
                Ok(x) => x,
                Err(e) => {
                    return Err(e);
                },
            };
            match self.expect(&TokenKind::Semicolon, "';' after attribute") {
                Ok(_) => {},
                Err(e) => {
                    return Err(e);
                },
            }
            let span = Span::new(start.start, init.span.end, start.line, start.col);
            return Ok(ClassMember::Attribute { name, init, span });
        }
        if self.check(&TokenKind::LParen) {
            return self.parse_named_method(name, name_span, start);
        }
        let mut expected = String::new();
        crate::text::push_str(&mut expected, "':=', '=' for attribute or '(' for method");
        proof {
            assert(expected@ =~= "':=', '=' for attribute or '(' for method"@);
        }
        Err(ParseError::Unexpected { expected, got: self.peek().copy(), span: self.span() })
    }

    fn parse_method_member(&mut self, start: Span) -> (r: Result<ClassMember, ParseError>)
        requires
            old(self).wf(),
        ensures
            old(self).decl_done(final(self), r is Ok),
            member_result(r, final(self).at()) == p_method_member(old(self).toks(), old(self).at(), start, old(self).nc(), old(self).np()),
    {
        let (name, name_span) = match self.expect_ident("method name") {
            Ok(x) => x,
            Err(e) => {
                return Err(e);
            },
        };
        self.parse_named_method(name, name_span, start)
    }

    fn parse_named_method(&mut self, name: String, _name_span: Span, start: Span) -> (r: Result<ClassMember, ParseError>)
        requires
            old(self).wf(),
        ensures
            old(self).decl_done(final(self), r is Ok),
            member_result(r, final(self).at()) == p_method(old(self).toks(), old(self).at(), name, start, old(self).nc(), old(self).np()),
    {
        let ghost t = self.toks();
        match self.expect(&TokenKind::LParen, "'('") {
            Ok(_) => {},
            Err(e) => {
                return Err(e);
            },
        }
        let params = match self.parse_params() {
            Ok(x) => x,
            Err(e) => {
                return Err(e);
            },
        };
        match self.expect(&TokenKind::RParen, "')'") {
            Ok(_) => {},
            Err(e) => {
                return Err(e);
            },
        }
        let ghost q1 = self.at();
        let return_type = if self.matches(&TokenKind::Colon) {
            match self.parse_type_expr() {
                Ok(x) => Some(x),
                Err(e) => {
                    proof {
                        assert(p_ann(t, q1) == Err::<(Option<TypeExprV>, int), PErrV>(e@));
                    }
                    return Err(e);
                },
            }
        } else {
            None
        };
        proof {
            assert(p_ann(t, q1) == Ok::<(Option<TypeExprV>, int), PErrV>((otview(return_type), self.at())));
        }
        let body = match self.parse_body() {
            Ok(x) => x,
            Err(e) => {
                return Err(e);
            },
        };
        let span = Span::new(start.start, body.span.end, start.line, start.col);
        Ok(ClassMember::Method { name, params, return_type, body, span })
    }

    /// `-> expr ;`, `=> expr ;` or a block.
    fn parse_body(&mut self) -> (r: Result<ExprS, ParseError>)
        requires
            old(self).wf(),
        ensures
            old(self).decl_done(final(self), r is Ok),
            expr_result(r, final(self).at()) == p_body(old(self).toks(), old(self).at(), old(self).nc(), old(self).np()),
    {
        if self.matches(&TokenKind::Arrow) || self.matches(&TokenKind::DArrow) {
            let expr = match self.parse_expr() {
                Ok(x) => x,
                Err(e) => {
                    return Err(e);
                },
            };
            match self.expect(&TokenKind::Semicolon, "';' after inline body") {
                Ok(_) => {},
                Err(e) => {
                    return Err(e);
                },
            }
            Ok(expr)
        } else if self.check(&TokenKind::LBrace) {
            self.parse_block()
        } else {
            let mut expected = String::new();
            crate::text::push_str(&mut expected, "'->', '=>' or '{'");
            proof {
                assert(expected@ =~= "'->', '=>' or '{'"@);
            }
            Err(ParseError::Unexpected { expected, got: self.peek().copy(), span: self.span() })
        }
    }
}

} // verus!
