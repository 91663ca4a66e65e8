//! The grammar of declarations and whole programs, over the expression
//! grammar, with views of the declarations in which lists are sequences.
use vstd::prelude::*;
use crate::ast::{ExprS, FunctionDecl, ClassDecl, ClassMember, ProtocolDecl, ProtocolMethod, MacroParam, MacroParamKind, MacroDecl, Program};
use crate::lexer::{Span, Token};
use super::error::ParseError;
use super::grammar::{
    err_at, rest, span_to, skip_semi, p_ann, p_params, p_args, p_expr, p_block, TypeExprV, ParamV,
    SExprV, ExprV, PErrV, otview, pviews, eview, eviews, oview,
};

verus! {

/// The view of a function declaration.
pub ghost struct FunV {
    pub name: String,
    pub params: Seq<ParamV>,
    pub return_type: Option<TypeExprV>,
    pub body: SExprV,
    pub span: Span,
}

/// The view of a class member.
pub ghost enum MemberV {
    Attribute { name: String, init: SExprV, span: Span },
    Method { name: String, params: Seq<ParamV>, return_type: Option<TypeExprV>, body: SExprV, span: Span },
}

/// The view of a class declaration.
pub ghost struct ClassV {
    pub name: String,
    pub ctor_params: Seq<ParamV>,
    pub base: Option<String>,
    pub members: Seq<MemberV>,
    pub span: Span,
}

/// The view of a method a protocol asks for.
pub ghost struct PMethodV {
    pub name: String,
    pub params: Seq<ParamV>,
    pub return_type: Option<TypeExprV>,
}

/// The view of a protocol declaration.
pub ghost struct ProtoV {
    pub name: String,
    pub extends: Seq<String>,
    pub methods: Seq<PMethodV>,
    pub span: Span,
}

/// The view of a macro parameter.
pub ghost struct MParamV {
    pub name: String,
    pub kind: MacroParamKind,
    pub type_ann: Option<TypeExprV>,
    pub span: Span,
}

/// The view of a macro declaration.
pub ghost struct MacroV {
    pub name: String,
    pub params: Seq<MParamV>,
    pub body: SExprV,
    pub span: Span,
}

/// The view of a program.
pub ghost struct ProgramV {
    pub functions: Seq<FunV>,
    pub classes: Seq<ClassV>,
    pub protocols: Seq<ProtoV>,
    pub macros: Seq<MacroV>,
    pub entry: Option<SExprV>,
}

pub open spec fn fun_view(f: FunctionDecl) -> FunV {
    FunV {
        name: f.name,
        params: pviews(f.params@),
        return_type: otview(f.return_type),
        body: eview(f.body),
        span: f.span,
    }
}

pub open spec fn member_view(m: ClassMember) -> MemberV {
    match m {
        ClassMember::Attribute { name, init, span } => MemberV::Attribute { name, init: eview(init), span },
        ClassMember::Method { name, params, return_type, body, span } => MemberV::Method {
            name,
            params: pviews(params@),
            return_type: otview(return_type),
            body: eview(body),
            span,
        },
    }
}

pub open spec fn member_views(s: Seq<ClassMember>) -> Seq<MemberV> {
    Seq::new(s.len(), |i: int| member_view(s[i]))
}

pub open spec fn class_view(c: ClassDecl) -> ClassV {
    ClassV {
        name: c.name,
        ctor_params: pviews(c.ctor_params@),
        base: c.base,
        members: member_views(c.members@),
        span: c.span,
    }
}

pub open spec fn pmethod_view(m: ProtocolMethod) -> PMethodV {
    PMethodV { name: m.name, params: pviews(m.params@), return_type: otview(m.return_type) }
}

pub open spec fn pmethod_views(s: Seq<ProtocolMethod>) -> Seq<PMethodV> {
    Seq::new(s.len(), |i: int| pmethod_view(s[i]))
}

pub open spec fn proto_view(p: ProtocolDecl) -> ProtoV {
    ProtoV { name: p.name, extends: p.extends@, methods: pmethod_views(p.methods@), span: p.span }
}

pub open spec fn mparam_view(x: MacroParam) -> MParamV {
    MParamV { name: x.name, kind: x.kind, type_ann: otview(x.type_ann), span: x.span }
}

pub open spec fn mparam_views(s: Seq<MacroParam>) -> Seq<MParamV> {
    Seq::new(s.len(), |i: int| mparam_view(s[i]))
}

pub open spec fn macro_view(m: MacroDecl) -> MacroV {
    MacroV { name: m.name, params: mparam_views(m.params@), body: eview(m.body), span: m.span }
}

pub open spec fn fun_views(s: Seq<FunctionDecl>) -> Seq<FunV> {
    Seq::new(s.len(), |i: int| fun_view(s[i]))
}

pub open spec fn class_views(s: Seq<ClassDecl>) -> Seq<ClassV> {
    Seq::new(s.len(), |i: int| class_view(s[i]))
}

pub open spec fn proto_views(s: Seq<ProtocolDecl>) -> Seq<ProtoV> {
    Seq::new(s.len(), |i: int| proto_view(s[i]))
}

pub open spec fn macro_views(s: Seq<MacroDecl>) -> Seq<MacroV> {
    Seq::new(s.len(), |i: int| macro_view(s[i]))
}

pub open spec fn program_view(p: Program) -> ProgramV {
    ProgramV {
        functions: fun_views(p.functions@),
        classes: class_views(p.classes@),
        protocols: proto_views(p.protocols@),
        macros: macro_views(p.macros@),
        entry: oview(p.entry),
    }
}

/// A body at `p`: `-> e ;`, `=> e ;` or a block.
pub open spec fn p_body(t: Seq<Token>, p: int, nc: bool, np: bool) -> Result<(SExprV, int), PErrV> {
    if !(0 <= p < t.len()) {
        Err(err_at(t, p, "'{'"@))
    } else if t[p].kind is Arrow || t[p].kind is DArrow {
        match p_expr(t, p + 1, nc, np) {
            Err(e) => Err(e),
            Ok((e, q)) => if !(t[q].kind is Semicolon) {
                Err(err_at(t, q, "';' after inline body"@))
            } else {
                Ok((e, q + 1))
            },
        }
    } else if t[p].kind is LBrace {
        p_block(t, p, nc, np)
    } else {
        Err(PErrV::Unexpected { expected: "'->', '=>' or '{'"@, got: t[p].kind, span: t[p].span })
    }
}

/// `function name(params) [: T] body`.
pub open spec fn p_function(t: Seq<Token>, p: int, nc: bool, np: bool) -> Result<(FunV, int), PErrV> {
    if !(0 <= p < t.len()) || !(t[p].kind is Function) {
        Err(err_at(t, p, "'function'"@))
    } else if !(t[p + 1].kind is Ident) {
        Err(err_at(t, p + 1, "function name"@))
    } else if !(t[p + 2].kind is LParen) {
        Err(err_at(t, p + 2, "'('"@))
    } else {
        match p_params(t, p + 3) {
            Err(e) => Err(e),
            Ok((ps, q)) => if !(t[q].kind is RParen) {
                Err(err_at(t, q, "')'"@))
            } else {
                match p_ann(t, q + 1) {
                    Err(e) => Err(e),
                    Ok((rt, q2)) => match p_body(t, q2, nc, np) {
                        Err(e) => Err(e),
                        Ok((body, q3)) => Ok((
                            FunV {
                                name: t[p + 1].kind->Ident_0,
                                params: ps,
                                return_type: rt,
                                body,
                                span: span_to(t[p].span, body.span.end),
                            },
                            q3,
                        )),
                    },
                }
            },
        }
    }
}

/// A method from its `(` at `p`, named `name`, begun at `start`.
pub open spec fn p_method(t: Seq<Token>, p: int, name: String, start: Span, nc: bool, np: bool) -> Result<(MemberV, int), PErrV> {
    if !(0 <= p < t.len()) || !(t[p].kind is LParen) {
        Err(err_at(t, p, "'('"@))
    } else {
        match p_params(t, p + 1) {
            Err(e) => Err(e),
            Ok((ps, q)) => if !(t[q].kind is RParen) {
                Err(err_at(t, q, "')'"@))
            } else {
                match p_ann(t, q + 1) {
                    Err(e) => Err(e),
                    Ok((rt, q2)) => match p_body(t, q2, nc, np) {
                        Err(e) => Err(e),
                        Ok((body, q3)) => Ok((
                            MemberV::Method { name, params: ps, return_type: rt, body, span: span_to(start, body.span.end) },
                            q3,
                        )),
                    },
                }
            },
        }
    }
}

/// After `function` in a class body: the method's name at `p`, then the method.
pub open spec fn p_method_member(t: Seq<Token>, p: int, start: Span, nc: bool, np: bool) -> Result<(MemberV, int), PErrV> {
    if !(0 <= p < t.len()) || !(t[p].kind is Ident) {
        Err(err_at(t, p, "method name"@))
    } else {
        p_method(t, p + 1, t[p].kind->Ident_0, start, nc, np)
    }
}

/// A class member: `function m(...) body`, `m(...) body`, or `a := e;` / `a = e;`.
pub open spec fn p_member(t: Seq<Token>, p: int, nc: bool, np: bool) -> Result<(MemberV, int), PErrV> {
    if !(0 <= p < t.len()) {
        Err(err_at(t, p, "attribute or method name"@))
    } else if t[p].kind is Function {
        p_method_member(t, p + 1, t[p].span, nc, np)
    } else if !(t[p].kind is Ident) {
        Err(err_at(t, p, "attribute or method name"@))
    } else if t[p + 1].kind is ColonEq || t[p + 1].kind is Eq {
        match p_expr(t, p + 2, nc, np) {
            Err(e) => Err(e),
            Ok((init, q)) => if !(t[q].kind is Semicolon) {
                Err(err_at(t, q, "';' after attribute"@))
            } else {
                Ok((
                    MemberV::Attribute { name: t[p].kind->Ident_0, init, span: span_to(t[p].span, init.span.end) },
                    q + 1,
                ))
            },
        }
    } else if t[p + 1].kind is LParen {
        p_method(t, p + 1, t[p].kind->Ident_0, t[p].span, nc, np)
    } else {
        Err(PErrV::Unexpected {
            expected: "':=', '=' for attribute or '(' for method"@,
            got: t[p + 1].kind,
            span: t[p + 1].span,
        })
    }
}

/// Members from `q`, after `acc`, until `}` or the end.
pub open spec fn p_members(t: Seq<Token>, q: int, acc: Seq<MemberV>, nc: bool, np: bool) -> Result<(Seq<MemberV>, int), PErrV>
    decreases rest(t, q),
{
    if !(0 <= q < t.len()) || t[q].kind is RBrace || t[q].kind is Eof {
        Ok((acc, q))
    } else {
        match p_member(t, q, nc, np) {
            Err(e) => Err(e),
            Ok((m, q2)) => if q2 <= q {
                Err(err_at(t, q, "attribute or method name"@))
            } else {
                p_members(t, q2, acc.push(m), nc, np)
            },
        }
    }
}

/// The base of a class at `q`: `is B` or `inherits B`, with arguments that
/// are read and dropped.
pub open spec fn p_base(t: Seq<Token>, q: int, nc: bool, np: bool) -> Result<(Option<String>, int), PErrV> {
    if !(0 <= q < t.len()) || !(t[q].kind is Is || t[q].kind is Inherits) {
        Ok((None, q))
    } else if !(t[q + 1].kind is Ident) {
        Err(err_at(t, q + 1, "base class name"@))
    } else if t[q + 2].kind is LParen {
        match p_args(t, q + 3, nc, np) {
            Err(e) => Err(e),
            Ok((_, q2)) => if !(t[q2].kind is RParen) {
                Err(err_at(t, q2, "')'"@))
            } else {
                Ok((Some(t[q + 1].kind->Ident_0), q2 + 1))
            },
        }
    } else {
        Ok((Some(t[q + 1].kind->Ident_0), q + 2))
    }
}

/// `class Name [(params)] [is B [(args)]] { members }`; `type` for `class`.
pub open spec fn p_class(t: Seq<Token>, p: int, nc: bool, np: bool) -> Result<(ClassV, int), PErrV> {
    if !(0 <= p < t.len()) || !(t[p].kind is Class || t[p].kind is Type) {
        Err(err_at(t, p, "'class' or 'type'"@))
    } else if !(t[p + 1].kind is Ident) {
        Err(err_at(t, p + 1, "class name"@))
    } else {
        let ctor = if t[p + 2].kind is LParen {
            match p_params(t, p + 3) {
                Err(e) => Err(e),
                Ok((ps, q)) => if !(t[q].kind is RParen) {
                    Err(err_at(t, q, "')'"@))
                } else {
                    Ok((ps, q + 1))
                },
            }
        } else {
            Ok((Seq::<ParamV>::empty(), p + 2))
        };
        match ctor {
            Err(e) => Err(e),
            Ok((cps, q1)) => match p_base(t, q1, nc, np) {
                Err(e) => Err(e),
                Ok((b, q3)) => if !(t[q3].kind is LBrace) {
                    Err(err_at(t, q3, "'{'"@))
                } else {
                    match p_members(t, q3 + 1, Seq::empty(), nc, np) {
                        Err(e) => Err(e),
                        Ok((ms, q4)) => if !(t[q4].kind is RBrace) {
                            Err(err_at(t, q4, "'}'"@))
                        } else {
                            Ok((
                                ClassV {
                                    name: t[p + 1].kind->Ident_0,
                                    ctor_params: cps,
                                    base: b,
                                    members: ms,
                                    span: span_to(t[p].span, t[q4].span.end),
                                },
                                q4 + 1,
                            ))
                        },
                    }
                },
            },
        }
    }
}

/// Protocol names separated by commas from `p`, after `acc`.
pub open spec fn p_names(t: Seq<Token>, p: int, acc: Seq<String>) -> Result<(Seq<String>, int), PErrV>
    decreases rest(t, p),
{
    if !(0 <= p < t.len()) || !(t[p].kind is Ident) {
        Err(err_at(t, p, "protocol name"@))
    } else if t[p + 1].kind is Comma {
        p_names(t, p + 2, acc.push(t[p].kind->Ident_0))
    } else {
        Ok((acc.push(t[p].kind->Ident_0), p + 1))
    }
}

/// Method signatures `m(params) [: T];` from `q`, after `acc`, until `}` or the end.
pub open spec fn p_pmethods(t: Seq<Token>, q: int, acc: Seq<PMethodV>) -> Result<(Seq<PMethodV>, int), PErrV>
    decreases rest(t, q),
{
    if !(0 <= q < t.len()) || t[q].kind is RBrace || t[q].kind is Eof {
        Ok((acc, q))
    } else if !(t[q].kind is Ident) {
        Err(err_at(t, q, "method name"@))
    } else if !(t[q + 1].kind is LParen) {
        Err(err_at(t, q + 1, "'('"@))
    } else {
        match p_params(t, q + 2) {
            Err(e) => Err(e),
            Ok((ps, q2)) => if !(t[q2].kind is RParen) {
                Err(err_at(t, q2, "')'"@))
            } else {
                match p_ann(t, q2 + 1) {
                    Err(e) => Err(e),
                    Ok((rt, q3)) => if q3 < q {
                        Err(err_at(t, q, "method name"@))
                    } else if !(t[q3].kind is Semicolon) {
                        Err(err_at(t, q3, "';' after protocol method"@))
                    } else {
                        p_pmethods(
                            t,
                            q3 + 1,
                            acc.push(PMethodV { name: t[q].kind->Ident_0, params: ps, return_type: rt }),
                        )
                    },
                }
            },
        }
    }
}

/// `protocol Name [extends P1, P2] { m(params): T; ... }`.
pub open spec fn p_protocol(t: Seq<Token>, p: int) -> Result<(ProtoV, int), PErrV> {
    if !(0 <= p < t.len()) || !(t[p].kind is Protocol) {
        Err(err_at(t, p, "'protocol'"@))
    } else if !(t[p + 1].kind is Ident) {
        Err(err_at(t, p + 1, "protocol name"@))
    } else {
        let ext = if t[p + 2].kind is Ident && t[p + 2].kind->Ident_0@ == "extends"@ {
            p_names(t, p + 3, Seq::empty())
        } else {
            Ok((Seq::<String>::empty(), p + 2))
        };
        match ext {
            Err(e) => Err(e),
            Ok((exs, q)) => if !(t[q].kind is LBrace) {
                Err(err_at(t, q, "'{'"@))
            } else {
                match p_pmethods(t, q + 1, Seq::empty()) {
                    Err(e) => Err(e),
                    Ok((ms, q2)) => if !(t[q2].kind is RBrace) {
                        Err(err_at(t, q2, "'}'"@))
                    } else {
                        Ok((
                            ProtoV {
                                name: t[p + 1].kind->Ident_0,
                                extends: exs,
                                methods: ms,
                                span: span_to(t[p].span, t[q2].span.end),
                            },
                            q2 + 1,
                        ))
                    },
                }
            },
        }
    }
}

/// How a macro parameter at `p` is passed, and where its name stands.
pub open spec fn mparam_kind(t: Seq<Token>, p: int) -> (MacroParamKind, int) {
    if t[p].kind is At {
        (MacroParamKind::ByRef, p + 1)
    } else if t[p].kind is Star {
        (MacroParamKind::ByName, p + 1)
    } else if t[p].kind is Dollar {
        (MacroParamKind::VarName, p + 1)
    } else {
        (MacroParamKind::Value, p)
    }
}

/// Macro parameters `[@|*|$]name [: T]` separated by commas from `p`, after `acc`.
pub open spec fn p_mparams_from(t: Seq<Token>, p: int, acc: Seq<MParamV>) -> Result<(Seq<MParamV>, int), PErrV>
    decreases rest(t, p),
{
    if !(0 <= p < t.len()) {
        Err(err_at(t, p, "macro parameter name"@))
    } else {
        let (kind, p1) = mparam_kind(t, p);
        if !(t[p1].kind is Ident) {
            Err(err_at(t, p1, "macro parameter name"@))
        } else {
            match p_ann(t, p1 + 1) {
                Err(e) => Err(e),
                Ok((ann, q)) => if q <= p {
                    Err(err_at(t, p, "macro parameter name"@))
                } else {
                    let x = MParamV {
                        name: t[p1].kind->Ident_0,
                        kind,
                        type_ann: ann,
                        span: span_to(t[p].span, t[q].span.start),
                    };
                    if t[q].kind is Comma {
                        p_mparams_from(t, q + 1, acc.push(x))
                    } else {
                        Ok((acc.push(x), q))
                    }
                },
            }
        }
    }
}

/// A macro parameter list from `p`, up to (not including) `)`.
pub open spec fn p_mparams(t: Seq<Token>, p: int) -> Result<(Seq<MParamV>, int), PErrV> {
    if 0 <= p < t.len() && t[p].kind is RParen {
        Ok((Seq::empty(), p))
    } else {
        p_mparams_from(t, p, Seq::empty())
    }
}

/// `def name(params) { body } [;]`; the span is that of `def`.
pub open spec fn p_macro(t: Seq<Token>, p: int, nc: bool, np: bool) -> Result<(MacroV, int), PErrV> {
    if !(0 <= p < t.len()) || !(t[p].kind is Def) {
        Err(err_at(t, p, "'def'"@))
    } else if !(t[p + 1].kind is Ident) {
        Err(err_at(t, p + 1, "macro name"@))
    } else if !(t[p + 2].kind is LParen) {
        Err(err_at(t, p + 2, "'('"@))
    } else {
        match p_mparams(t, p + 3) {
            Err(e) => Err(e),
            Ok((ps, q)) => if !(t[q].kind is RParen) {
                Err(err_at(t, q, "')'"@))
            } else {
                match p_block(t, q + 1, nc, np) {
                    Err(e) => Err(e),
                    Ok((body, q2)) => Ok((
                        MacroV { name: t[p + 1].kind->Ident_0, params: ps, body, span: t[p].span },
                        skip_semi(t, q2),
                    )),
                }
            },
        }
    }
}

/// What a program holds so far: its declarations and top-level expressions.
pub ghost struct ProgAcc {
    pub functions: Seq<FunV>,
    pub classes: Seq<ClassV>,
    pub protocols: Seq<ProtoV>,
    pub macros: Seq<MacroV>,
    pub tops: Seq<SExprV>,
}

pub open spec fn empty_acc() -> ProgAcc {
    ProgAcc {
        functions: Seq::empty(),
        classes: Seq::empty(),
        protocols: Seq::empty(),
        macros: Seq::empty(),
        tops: Seq::empty(),
    }
}

/// Declarations and top-level expressions (each with an optional `;`) from
/// `p` to the end, after `a`; stray `;` are skipped.
pub open spec fn p_items(t: Seq<Token>, p: int, a: ProgAcc, nc: bool, np: bool) -> Result<(ProgAcc, int), PErrV>
    decreases rest(t, p),
{
    if !(0 <= p < t.len()) || t[p].kind is Eof {
        Ok((a, p))
    } else if t[p].kind is Semicolon {
        p_items(t, p + 1, a, nc, np)
    } else if t[p].kind is Function {
        match p_function(t, p, nc, np) {
            Err(e) => Err(e),
            Ok((f, q)) => if q <= p {
                Err(err_at(t, p, "'function'"@))
            } else {
                p_items(t, q, ProgAcc { functions: a.functions.push(f), ..a }, nc, np)
            },
        }
    } else if t[p].kind is Class || t[p].kind is Type {
        match p_class(t, p, nc, np) {
            Err(e) => Err(e),
            Ok((c, q)) => if q <= p {
                Err(err_at(t, p, "'class' or 'type'"@))
            } else {
                p_items(t, q, ProgAcc { classes: a.classes.push(c), ..a }, nc, np)
            },
        }
    } else if t[p].kind is Protocol {
        match p_protocol(t, p) {
            Err(e) => Err(e),
            Ok((x, q)) => if q <= p {
                Err(err_at(t, p, "'protocol'"@))
            } else {
                p_items(t, q, ProgAcc { protocols: a.protocols.push(x), ..a }, nc, np)
            },
        }
    } else if t[p].kind is Def {
        match p_macro(t, p, nc, np) {
            Err(e) => Err(e),
            Ok((m, q)) => if q <= p {
                Err(err_at(t, p, "'def'"@))
            } else {
                p_items(t, q, ProgAcc { macros: a.macros.push(m), ..a }, nc, np)
            },
        }
    } else {
        match p_expr(t, p, nc, np) {
            Err(e) => Err(e),
            Ok((x, q)) => if q <= p {
                Err(err_at(t, p, "expression"@))
            } else {
                p_items(t, skip_semi(t, q), ProgAcc { tops: a.tops.push(x), ..a }, nc, np)
            },
        }
    }
}

/// The entry expression: none, the only top-level expression, or a block of
/// them spanning from the first to the last.
pub open spec fn entry_of(tops: Seq<SExprV>) -> Option<SExprV> {
    if tops.len() == 0 {
        None
    } else if tops.len() == 1 {
        Some(tops[0])
    } else {
        Some(SExprV { node: ExprV::Block(tops), span: span_to(tops[0].span, tops.last().span.end) })
    }
}

/// A whole program from `p`.
pub open spec fn p_program(t: Seq<Token>, p: int, nc: bool, np: bool) -> Result<(ProgramV, int), PErrV> {
    match p_items(t, p, empty_acc(), nc, np) {
        Err(e) => Err(e),
        Ok((a, q)) => Ok((
            ProgramV {
                functions: a.functions,
                classes: a.classes,
                protocols: a.protocols,
                macros: a.macros,
                entry: entry_of(a.tops),
            },
            q,
        )),
    }
}

/// What the declaration lists and top-level expressions read so far hold.
pub open spec fn acc_of(
    fs: Seq<FunctionDecl>,
    cs: Seq<ClassDecl>,
    ps: Seq<ProtocolDecl>,
    ms: Seq<MacroDecl>,
    tops: Seq<ExprS>,
) -> ProgAcc {
    ProgAcc {
        functions: fun_views(fs),
        classes: class_views(cs),
        protocols: proto_views(ps),
        macros: macro_views(ms),
        tops: eviews(tops),
    }
}

pub open spec fn fun_result(r: Result<FunctionDecl, ParseError>, q: int) -> Result<(FunV, int), PErrV> {
    match r {
        Ok(x) => Ok((fun_view(x), q)),
        Err(e) => Err(e@),
    }
}

pub open spec fn class_result(r: Result<ClassDecl, ParseError>, q: int) -> Result<(ClassV, int), PErrV> {
    match r {
        Ok(x) => Ok((class_view(x), q)),
        Err(e) => Err(e@),
    }
}

pub open spec fn member_result(r: Result<ClassMember, ParseError>, q: int) -> Result<(MemberV, int), PErrV> {
    match r {
        Ok(x) => Ok((member_view(x), q)),
        Err(e) => Err(e@),
    }
}

pub open spec fn members_result(r: Result<Vec<ClassMember>, ParseError>, q: int) -> Result<(Seq<MemberV>, int), PErrV> {
    match r {
        Ok(x) => Ok((member_views(x@), q)),
        Err(e) => Err(e@),
    }
}

pub open spec fn names_result(r: Result<Vec<String>, ParseError>, q: int) -> Result<(Seq<String>, int), PErrV> {
    match r {
        Ok(x) => Ok((x@, q)),
        Err(e) => Err(e@),
    }
}

pub open spec fn pmethods_result(r: Result<Vec<ProtocolMethod>, ParseError>, q: int) -> Result<(Seq<PMethodV>, int), PErrV> {
    match r {
        Ok(x) => Ok((pmethod_views(x@), q)),
        Err(e) => Err(e@),
    }
}

pub open spec fn proto_result(r: Result<ProtocolDecl, ParseError>, q: int) -> Result<(ProtoV, int), PErrV> {
    match r {
        Ok(x) => Ok((proto_view(x), q)),
        Err(e) => Err(e@),
    }
}

pub open spec fn mparams_result(r: Result<Vec<MacroParam>, ParseError>, q: int) -> Result<(Seq<MParamV>, int), PErrV> {
    match r {
        Ok(x) => Ok((mparam_views(x@), q)),
        Err(e) => Err(e@),
    }
}

pub open spec fn macro_result(r: Result<MacroDecl, ParseError>, q: int) -> Result<(MacroV, int), PErrV> {
    match r {
        Ok(x) => Ok((macro_view(x), q)),
        Err(e) => Err(e@),
    }
}

/// The view of a parse of a program that stopped at `q`.
pub open spec fn program_result(r: Result<Program, ParseError>, q: int) -> Result<(ProgramV, int), PErrV> {
    match r {
        Ok(x) => Ok((program_view(x), q)),
        Err(e) => Err(e@),
    }
}

} // verus!
