//! Laws of the parser: how binary operators group, and how a program is
//! formed from its declarations and top-level expressions.
use vstd::prelude::*;
use crate::ast::BinaryOp;
use crate::lexer::{Span, Token, TokenKind};
use super::grammar::{
    ExprV, SExprV, PErrV, span_to, bin_op, p_expr, p_assign, p_type_ops, p_type_ops_more, p_bin, p_bin_more, p_pow,
    p_unary, p_postfix, p_postfix_more, p_primary, p_name, p_for, p_while,
};
use super::program_grammar::{p_items, p_program, empty_acc};

verus! {

/// A program is its declarations of each kind and its top-level expressions,
/// as read one after the other; its entry is none when there is no top-level
/// expression, the expression itself when there is one, and otherwise a block
/// of them all, spanning from the start of the first to the end of the last
/// at the first one's line and column.
pub proof fn law_program_entry(t: Seq<Token>, p: int, nc: bool, np: bool)
    requires
        p_program(t, p, nc, np) is Ok,
    ensures
        p_items(t, p, empty_acc(), nc, np) is Ok,
        ({
            let (a, q) = p_items(t, p, empty_acc(), nc, np)->Ok_0;
            let (prog, q2) = p_program(t, p, nc, np)->Ok_0;
            &&& q2 == q
            &&& prog.functions == a.functions
            &&& prog.classes == a.classes
            &&& prog.protocols == a.protocols
            &&& prog.macros == a.macros
            &&& a.tops.len() == 0 ==> prog.entry is None
            &&& a.tops.len() == 1 ==> prog.entry == Some(a.tops[0])
            &&& a.tops.len() >= 2 ==> prog.entry == Some(
                SExprV {
                    node: ExprV::Block(a.tops),
                    span: Span {
                        start: a.tops[0].span.start,
                        end: a.tops.last().span.end,
                        line: a.tops[0].span.line,
                        col: a.tops[0].span.col,
                    },
                },
            )
        }),
{
}

/// The level at which a token is read as a binary operator, from 1 for `|`
/// (loosest) to 7 for `*`, `/` and `%`, and 8 for `^` (tightest); 0 for a
/// token that is no binary operator.
pub open spec fn op_level(k: TokenKind) -> int {
    match k {
        TokenKind::Pipe => 1,
        TokenKind::Amp => 2,
        TokenKind::EqEq | TokenKind::BangEq => 3,
        TokenKind::Lt | TokenKind::Le | TokenKind::Gt | TokenKind::Ge => 4,
        TokenKind::At | TokenKind::AtAt => 5,
        TokenKind::Plus | TokenKind::Minus => 6,
        TokenKind::Star | TokenKind::Slash | TokenKind::Percent => 7,
        TokenKind::Caret => 8,
        _ => 0,
    }
}

/// The operator a binary-operator token stands for.
pub open spec fn op_of(k: TokenKind) -> BinaryOp {
    match k {
        TokenKind::Pipe => BinaryOp::Or,
        TokenKind::Amp => BinaryOp::And,
        TokenKind::EqEq => BinaryOp::Eq,
        TokenKind::BangEq => BinaryOp::Ne,
        TokenKind::Lt => BinaryOp::Lt,
        TokenKind::Le => BinaryOp::Le,
        TokenKind::Gt => BinaryOp::Gt,
        TokenKind::Ge => BinaryOp::Ge,
        TokenKind::At => BinaryOp::Concat,
        TokenKind::AtAt => BinaryOp::ConcatSpace,
        TokenKind::Plus => BinaryOp::Add,
        TokenKind::Minus => BinaryOp::Sub,
        TokenKind::Star => BinaryOp::Mul,
        TokenKind::Slash => BinaryOp::Div,
        TokenKind::Percent => BinaryOp::Mod,
        _ => BinaryOp::Pow,
    }
}

/// The variable named by the identifier token at `p`.
pub open spec fn var_at(t: Seq<Token>, p: int) -> SExprV {
    SExprV { node: ExprV::Var(t[p].kind->Ident_0), span: t[p].span }
}

/// `l op r`, spanning from the start of `l` to the end of `r`.
pub open spec fn binary(op: BinaryOp, l: SExprV, r: SExprV) -> SExprV {
    SExprV { node: ExprV::Binary { op, left: Box::new(l), right: Box::new(r) }, span: span_to(l.span, r.span.end) }
}

/// Binary operators of level `lvl` and tighter: `p_bin`, or `p_pow` past
/// level 7.
spec fn p_level(t: Seq<Token>, p: int, lvl: int) -> Result<(SExprV, int), PErrV> {
    if lvl >= 8 {
        p_pow(t, p, false, false)
    } else {
        p_bin(t, p, false, false, lvl)
    }
}

/// An identifier at `p` that no call, field, method or index follows.
spec fn plain_name_at(t: Seq<Token>, p: int) -> bool {
    &&& 0 <= p
    &&& p + 1 < t.len()
    &&& t[p].kind is Ident
    &&& !(t[p + 1].kind is LParen || t[p + 1].kind is Dot || t[p + 1].kind is LBracket)
}

proof fn lemma_unary_name(t: Seq<Token>, p: int)
    requires
        plain_name_at(t, p),
    ensures
        p_unary(t, p, false, false) == Ok::<(SExprV, int), PErrV>((var_at(t, p), p + 1)),
{
    reveal_with_fuel(p_unary, 1);
    reveal_with_fuel(p_postfix, 1);
    reveal_with_fuel(p_primary, 1);
    reveal_with_fuel(p_name, 1);
    reveal_with_fuel(p_postfix_more, 1);
    let x = var_at(t, p);
    assert(p_name(t, p, false, false) == Ok::<(SExprV, int), PErrV>((x, p + 1)));
    assert(p_primary(t, p, false, false) == Ok::<(SExprV, int), PErrV>((x, p + 1)));
    assert(p_postfix_more(t, p + 1, x, false, false) == Ok::<(SExprV, int), PErrV>((x, p + 1)));
    assert(p_postfix(t, p, false, false) == Ok::<(SExprV, int), PErrV>((x, p + 1)));
}

/// `^` after an operand at `p` reads the rest as a power, to the right.
proof fn lemma_pow_step(t: Seq<Token>, p: int, r: SExprV, q: int)
    requires
        plain_name_at(t, p),
        t[p + 1].kind is Caret,
        p_pow(t, p + 2, false, false) == Ok::<(SExprV, int), PErrV>((r, q)),
    ensures
        p_pow(t, p, false, false) == Ok::<(SExprV, int), PErrV>((binary(BinaryOp::Pow, var_at(t, p), r), q)),
{
    lemma_unary_name(t, p);
    reveal_with_fuel(p_pow, 1);
    reveal_with_fuel(p_unary, 1);
}

proof fn lemma_pow_name(t: Seq<Token>, p: int)
    requires
        plain_name_at(t, p),
        !(t[p + 1].kind is Caret),
    ensures
        p_pow(t, p, false, false) == Ok::<(SExprV, int), PErrV>((var_at(t, p), p + 1)),
{
    lemma_unary_name(t, p);
    reveal_with_fuel(p_pow, 1);
    reveal_with_fuel(p_unary, 1);
}

/// Level `lvl` reads its first operand one level tighter.
proof fn lemma_bin_first(t: Seq<Token>, p: int, lvl: int, l: SExprV, q: int)
    requires
        1 <= lvl <= 7,
        0 <= p < q,
        p < t.len(),
        p_level(t, p, lvl + 1) == Ok::<(SExprV, int), PErrV>((l, q)),
    ensures
        p_level(t, p, lvl) == p_bin_more(t, q, l, false, false, lvl),
{
    reveal_with_fuel(p_bin, 1);
    reveal_with_fuel(p_pow, 1);
    reveal_with_fuel(p_bin_more, 1);
}

/// Level `lvl` stops at a token that is no operator of that level.
proof fn lemma_more_stop(t: Seq<Token>, q: int, l: SExprV, lvl: int)
    requires
        1 <= lvl <= 7,
        0 <= q < t.len(),
        op_level(t[q].kind) != lvl,
    ensures
        p_bin_more(t, q, l, false, false, lvl) == Ok::<(SExprV, int), PErrV>((l, q)),
{
    reveal_with_fuel(p_bin_more, 1);
}

/// An operator of level `lvl` joins what was read to the next operand, read
/// one level tighter, and reading goes on from there.
proof fn lemma_more_step(t: Seq<Token>, q: int, l: SExprV, lvl: int, r: SExprV, q2: int)
    requires
        1 <= lvl <= 7,
        0 <= q < q2,
        q < t.len(),
        op_level(t[q].kind) == lvl,
        p_level(t, q + 1, lvl + 1) == Ok::<(SExprV, int), PErrV>((r, q2)),
    ensures
        p_bin_more(t, q, l, false, false, lvl) == p_bin_more(t, q2, binary(op_of(t[q].kind), l, r), false, false, lvl),
{
    reveal_with_fuel(p_bin_more, 1);
    reveal_with_fuel(p_bin, 1);
    reveal_with_fuel(p_pow, 1);
    let op = op_of(t[q].kind);
    assert(bin_op(lvl, t[q].kind, false) == Some(op));
    let next = if lvl < 7 { p_bin(t, q + 1, false, false, lvl + 1) } else { p_pow(t, q + 1, false, false) };
    assert(next == p_level(t, q + 1, lvl + 1));
    let (r1, q3) = next->Ok_0;
    assert(r1 == r && q3 == q2);
    let j = SExprV {
        node: ExprV::Binary { op, left: Box::new(l), right: Box::new(r1) },
        span: span_to(l.span, r1.span.end),
    };
    assert(j == binary(op, l, r));
    assert(p_bin_more(t, q, l, false, false, lvl) == p_bin_more(t, q3, j, false, false, lvl));
}

/// What a level reads is what every looser level reads, when the token after
/// it is no operator of those levels.
proof fn lemma_climb(t: Seq<Token>, p: int, lo: int, hi: int, e: SExprV, q: int)
    requires
        1 <= lo <= hi <= 8,
        0 <= p < q < t.len(),
        op_level(t[q].kind) < lo,
        p_level(t, p, hi) == Ok::<(SExprV, int), PErrV>((e, q)),
    ensures
        p_level(t, p, lo) == Ok::<(SExprV, int), PErrV>((e, q)),
    decreases hi - lo,
{
    if lo < hi {
        lemma_bin_first(t, p, hi - 1, e, q);
        lemma_more_stop(t, q, e, hi - 1);
        lemma_climb(t, p, lo, hi - 1, e, q);
    }
}

/// A whole expression read from `p` up to the end of input at `q`.
proof fn lemma_expr_top(t: Seq<Token>, e: SExprV, q: int)
    requires
        0 < q < t.len(),
        t[0].kind is Ident,
        t[q].kind is Eof,
        p_level(t, 0, 1) == Ok::<(SExprV, int), PErrV>((e, q)),
    ensures
        p_expr(t, 0, false, false) == Ok::<(SExprV, int), PErrV>((e, q)),
{
    assert(p_type_ops(t, 0, false, false) == Ok::<(SExprV, int), PErrV>((e, q))) by {
        reveal_with_fuel(p_type_ops_more, 1);
        reveal_with_fuel(p_type_ops, 1);
        reveal_with_fuel(p_bin, 1);
        let (l, q1) = p_bin(t, 0, false, false, 1)->Ok_0;
        assert(l == e && q1 == q);
        assert(p_type_ops_more(t, q1, l, false, false) == Ok::<(SExprV, int), PErrV>((l, q1)));
    }
    assert(p_assign(t, 0, false, false) == Ok::<(SExprV, int), PErrV>((e, q))) by {
        reveal_with_fuel(p_assign, 1);
        reveal_with_fuel(p_type_ops, 1);
        let (l, q1) = p_type_ops(t, 0, false, false)->Ok_0;
        assert(l == e && q1 == q);
        assert(!(t[q1].kind is ColonEq));
    }
    assert(p_expr(t, 0, false, false) == Ok::<(SExprV, int), PErrV>((e, q))) by {
        reveal_with_fuel(p_expr, 1);
        reveal_with_fuel(p_assign, 1);
    }
}

/// Operator precedence and associativity: in `a o1 b o2 c`, with `a`, `b`,
/// `c` names and `o1`, `o2` binary operators, the tighter operator binds
/// first; operators of one level group to the left, except `^`, which groups
/// to the right.
pub proof fn law_precedence(t: Seq<Token>)
    requires
        t.len() == 6,
        t[0].kind is Ident,
        t[2].kind is Ident,
        t[4].kind is Ident,
        t[5].kind is Eof,
        op_level(t[1].kind) >= 1,
        op_level(t[3].kind) >= 1,
    ensures
        ({
            let (l1, l2) = (op_level(t[1].kind), op_level(t[3].kind));
            let (a, b, c) = (var_at(t, 0), var_at(t, 2), var_at(t, 4));
            let (o1, o2) = (op_of(t[1].kind), op_of(t[3].kind));
            p_expr(t, 0, false, false) == Ok::<(SExprV, int), PErrV>((
                if l1 < l2 || (l1 == 8 && l2 == 8) {
                    binary(o1, a, binary(o2, b, c))
                } else {
                    binary(o2, binary(o1, a, b), c)
                },
                5,
            ))
        }),
{
    let l1 = op_level(t[1].kind);
    let l2 = op_level(t[3].kind);
    let (a, b, c) = (var_at(t, 0), var_at(t, 2), var_at(t, 4));
    let (o1, o2) = (op_of(t[1].kind), op_of(t[3].kind));
    assert(op_level(t[5].kind) == 0);
    lemma_pow_name(t, 4);
    lemma_climb(t, 4, 1, 8, c, 5);
    if l1 < l2 || (l1 == 8 && l2 == 8) {
        let bc = binary(o2, b, c);
        if l2 == 8 {
            lemma_pow_step(t, 2, c, 5);
        } else {
            lemma_pow_name(t, 2);
            lemma_climb(t, 2, l2 + 1, 8, b, 3);
            lemma_bin_first(t, 2, l2, b, 3);
            lemma_climb(t, 4, l2 + 1, 8, c, 5);
            lemma_more_step(t, 3, b, l2, c, 5);
            lemma_more_stop(t, 5, bc, l2);
        }
        assert(p_level(t, 2, l2) == Ok::<(SExprV, int), PErrV>((bc, 5)));
        let e = binary(o1, a, bc);
        if l1 == 8 {
            lemma_pow_step(t, 0, bc, 5);
            lemma_climb(t, 0, 1, 8, e, 5);
        } else {
            lemma_climb(t, 2, l1 + 1, l2, bc, 5);
            lemma_pow_name(t, 0);
            lemma_climb(t, 0, l1 + 1, 8, a, 1);
            lemma_bin_first(t, 0, l1, a, 1);
            lemma_more_step(t, 1, a, l1, bc, 5);
            lemma_more_stop(t, 5, e, l1);
            lemma_climb(t, 0, 1, l1, e, 5);
        }
        lemma_expr_top(t, e, 5);
    } else {
        let ab = binary(o1, a, b);
        let e = binary(o2, ab, c);
        lemma_pow_name(t, 2);
        if l1 == l2 {
            lemma_pow_name(t, 0);
            lemma_climb(t, 0, l1 + 1, 8, a, 1);
            lemma_climb(t, 2, l1 + 1, 8, b, 3);
            lemma_climb(t, 4, l1 + 1, 8, c, 5);
            lemma_bin_first(t, 0, l1, a, 1);
            lemma_more_step(t, 1, a, l1, b, 3);
            lemma_more_step(t, 3, ab, l1, c, 5);
            lemma_more_stop(t, 5, e, l1);
        } else {
            if l1 == 8 {
                lemma_pow_step(t, 0, b, 3);
            } else {
                lemma_pow_name(t, 0);
                lemma_climb(t, 0, l1 + 1, 8, a, 1);
                lemma_climb(t, 2, l1 + 1, 8, b, 3);
                lemma_bin_first(t, 0, l1, a, 1);
                lemma_more_step(t, 1, a, l1, b, 3);
                lemma_more_stop(t, 3, ab, l1);
            }
            lemma_climb(t, 0, l2 + 1, l1, ab, 3);
            lemma_climb(t, 4, l2 + 1, 8, c, 5);
            lemma_bin_first(t, 0, l2, ab, 3);
            lemma_more_step(t, 3, ab, l2, c, 5);
            lemma_more_stop(t, 5, e, l2);
        }
        lemma_climb(t, 0, 1, if l1 == l2 { l1 } else { l2 }, e, 5);
        lemma_expr_top(t, e, 5);
    }
}

/// `for (x in A) B`: the loop's variable is `x`, its iterable is the
/// expression read between `in` and `)`, and its body is the expression read
/// after `)`; the loop spans from `for` to the end of the body.
pub proof fn law_for_parts(t: Seq<Token>, p: int, nc: bool, np: bool, a: SExprV, qa: int, b: SExprV, qb: int)
    requires
        0 <= p,
        p + 4 < qa < t.len(),
        t[p].kind is For,
        t[p + 1].kind is LParen,
        t[p + 2].kind is Ident,
        t[p + 3].kind is In,
        p_expr(t, p + 4, nc, np) == Ok::<(SExprV, int), PErrV>((a, qa)),
        t[qa].kind is RParen,
        p_expr(t, qa + 1, nc, np) == Ok::<(SExprV, int), PErrV>((b, qb)),
    ensures
        p_expr(t, p, nc, np) == Ok::<(SExprV, int), PErrV>((
            SExprV {
                node: ExprV::For { var: t[p + 2].kind->Ident_0, iter: Box::new(a), body: Box::new(b) },
                span: span_to(t[p].span, b.span.end),
            },
            qb,
        )),
{
    reveal_with_fuel(p_expr, 1);
    reveal_with_fuel(p_for, 1);
    assert(p_for(t, p, nc, np) == Ok::<(SExprV, int), PErrV>((
        SExprV {
            node: ExprV::For { var: t[p + 2].kind->Ident_0, iter: Box::new(a), body: Box::new(b) },
            span: span_to(t[p].span, b.span.end),
        },
        qb,
    )));
}

/// `while (C) B`: the loop's condition is the expression read inside the
/// parentheses and its body the expression read after `)`; the loop spans
/// from `while` to the end of the body.
pub proof fn law_while_parts(t: Seq<Token>, p: int, nc: bool, np: bool, c: SExprV, qc: int, b: SExprV, qb: int)
    requires
        0 <= p,
        p + 2 < qc < t.len(),
        t[p].kind is While,
        t[p + 1].kind is LParen,
        p_expr(t, p + 2, nc, np) == Ok::<(SExprV, int), PErrV>((c, qc)),
        t[qc].kind is RParen,
        p_expr(t, qc + 1, nc, np) == Ok::<(SExprV, int), PErrV>((b, qb)),
    ensures
        p_expr(t, p, nc, np) == Ok::<(SExprV, int), PErrV>((
            SExprV {
                node: ExprV::While { cond: Box::new(c), body: Box::new(b) },
                span: span_to(t[p].span, b.span.end),
            },
            qb,
        )),
{
    reveal_with_fuel(p_expr, 1);
    reveal_with_fuel(p_while, 1);
    assert(p_while(t, p, nc, np) == Ok::<(SExprV, int), PErrV>((
        SExprV {
            node: ExprV::While { cond: Box::new(c), body: Box::new(b) },
            span: span_to(t[p].span, b.span.end),
        },
        qb,
    )));
}

} // verus!

